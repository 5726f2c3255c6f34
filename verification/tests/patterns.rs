//! Divergence detection and support/resistance rejection on constructed
//! series.

use options_maker::candle::Candle;
use options_maker::divergence::find_divergence;
use options_maker::support_resistance::{check_resistance, check_support};
use options_maker::trend::Trend;

const S: i64 = 10_000;

fn candle(t: i64, o: i64, h: i64, l: i64, c: i64, v: u64) -> Candle {
    Candle { open: o, low: l, high: h, close: c, volume: v, time: t, duration: 300 }
}

/// A falling indicator between two peaks while the price rises: the
/// detector emits a bearish divergence anchored at the earlier peak and
/// the terminal one, and the two slopes have opposite signs.
#[test]
fn bearish_divergence_on_constructed_series() {
    let times: Vec<i64> = (0..11).map(|k| k * 60).collect();
    let highs: Vec<i64> = (0..11).map(|k| (100 + k) * S).collect();
    let ind: Vec<Option<i64>> = vec![
        Some(10 * S),
        Some(20 * S),
        Some(80 * S),
        Some(20 * S),
        Some(10 * S),
        Some(5 * S),
        Some(62 * S),
        Some(5 * S),
        Some(4 * S),
        Some(3 * S),
        Some(70 * S),
    ];
    let found = find_divergence(Trend::Bearish, &times, &highs, &ind);
    let d = found.expect("a bearish divergence should be found");
    assert_eq!(d.trend, Trend::Bearish);
    assert_eq!(d.start, times[2]);
    assert_eq!(d.end, times[10]);
    assert_eq!(d.start_indicator, 80 * S);
    assert_eq!(d.end_indicator, 70 * S);
    assert_eq!(d.start_price, 102 * S);
    assert_eq!(d.end_price, 110 * S);
    // Opposite slopes: the indicator fell while the price rose.
    assert!(d.end_indicator - d.start_indicator < 0);
    assert!(d.end_price - d.start_price > 0);
}

/// Without a strict trend the detector stays silent.
#[test]
fn no_divergence_without_trend() {
    let times: Vec<i64> = (0..5).map(|k| k * 60).collect();
    let prices: Vec<i64> = (0..5).map(|k| (100 + k) * S).collect();
    let ind: Vec<Option<i64>> = (0..5).map(|k| Some((50 + k) * S)).collect();
    assert!(find_divergence(Trend::Flat, &times, &prices, &ind).is_none());
}

fn support_scenario() -> Vec<Candle> {
    let t0: i64 = 19_724 * 86_400 + 34_200;
    let p = |x: f64| (x * 10_000.0) as i64;
    vec![
        candle(t0, p(99.0), p(101.6), p(98.9), p(101.5), 10),
        candle(t0 + 300, p(101.5), p(101.8), p(100.6), p(100.8), 10),
        candle(t0 + 600, p(100.8), p(101.0), p(100.2), p(100.3), 10),
        candle(t0 + 900, p(100.3), p(100.4), p(99.95), p(100.0), 10),
        candle(t0 + 1200, p(100.0), p(100.45), p(99.98), p(100.4), 12),
        candle(t0 + 1500, p(100.4), p(100.85), p(100.38), p(100.8), 13),
        candle(t0 + 1800, p(100.8), p(100.9), p(100.78), p(100.9), 14),
    ]
}

/// The support-rejection pattern: an approach peak, a pivot low inside
/// the band, and a green tail; the green volume outweighs the red one.
#[test]
fn support_rejection_detected() {
    let candles = support_scenario();
    let rej = check_support(&candles, 100 * S, 1 * S, 40).expect("a rejection should be found");
    assert_eq!(rej.trend, Trend::Bullish);
    assert_eq!(rej.price_level, 100 * S);
    assert_eq!(rej.arriving_from, candles[1]);
    assert_eq!(rej.rejected_at, candles[3]);
    assert_eq!(rej.now, candles[6]);
    assert!(rej.is_imminent);
}

/// A last candle that is not green forbids the pattern.
#[test]
fn support_rejection_needs_green_tail() {
    let mut candles = support_scenario();
    let p = |x: f64| (x * 10_000.0) as i64;
    let t = candles.last().unwrap().time + 300;
    candles.push(candle(t, p(100.9), p(100.95), p(100.1), p(100.2), 9));
    assert!(check_support(&candles, 100 * S, 1 * S, 40).is_none());
}

/// Resistance is the mirror image of support on the negated candles.
#[test]
fn resistance_mirrors_support() {
    let candles = support_scenario();
    let mirrored: Vec<Candle> = candles
        .iter()
        .map(|c| Candle {
            open: -c.open,
            close: -c.close,
            low: -c.high,
            high: -c.low,
            volume: c.volume,
            time: c.time,
            duration: c.duration,
        })
        .collect();
    let rej = check_resistance(&mirrored, -100 * S, 1 * S, 40)
        .expect("the mirrored rejection should be found");
    assert_eq!(rej.trend, Trend::Bearish);
    assert_eq!(rej.price_level, -100 * S);
    assert_eq!(rej.arriving_from, mirrored[1]);
    assert_eq!(rej.rejected_at, mirrored[3]);
    assert_eq!(rej.now, mirrored[6]);
    assert!(rej.is_imminent);
}
