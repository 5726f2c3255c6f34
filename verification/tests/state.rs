//! Controller state transitions, the data frame, price-level discovery
//! and the dispatcher map.

use options_maker::candle::Candle;
use options_maker::chart::{Chart, ChartConfig, DivIndicator};
use options_maker::chart::price_change;
use options_maker::controller::{ChartSeries, Controller, PriceLevel, Quote, TradeParams};
use options_maker::volume::VolumeMessage;
use options_maker::dataframe::DataFrame;
use options_maker::dispatcher::Dispatcher;
use options_maker::levels::{dedupe_price_levels, find_min_max};
use options_maker::trend::Trend;

const S: i64 = 10_000;

fn mk(t: i64, o: i64, h: i64, l: i64, c: i64, v: u64) -> Candle {
    Candle { open: o, low: l, high: h, close: c, volume: v, time: t, duration: 60 }
}

fn params() -> TradeParams {
    TradeParams {
        trading_start: 34_200,
        trading_end: 57_600,
        open_start: 14_400,
        open_end: 72_000,
        sr_threshold_permyriad: 40,
        min_span: 21_600,
    }
}

/// Tick accumulation: four quotes build one synthetic candle, published
/// once the delay has elapsed; the candle log never grows.
#[test]
fn tick_accumulation_publishes_once() {
    let t0: i64 = 19_724 * 86_400 + 36_000;
    let mut ctrl = Controller::with_tick_delay(
        String::from("TEST"),
        Vec::new(),
        Vec::new(),
        Vec::new(),
        params(),
        10_000,
        t0,
    );
    let quote = |p: i64, z: u64, t: i64| Quote {
        last_price: Some(p),
        last_size: Some(z),
        trade_time: Some(t),
    };
    assert!(ctrl.on_tick(quote(100 * S, 5, t0), t0).is_none());
    assert!(ctrl.on_tick(quote(101 * S, 4, t0 + 3), t0 + 3).is_none());
    assert!(ctrl.on_tick(quote(99 * S, 6, t0 + 7), t0 + 7).is_none());
    let due = ctrl.on_tick(quote(102 * S, 7, t0 + 12), t0 + 12);
    let c = due.expect("the accumulated candle is due");
    assert_eq!(c.open, 100 * S);
    assert_eq!(c.high, 102 * S);
    assert_eq!(c.low, 99 * S);
    assert_eq!(c.close, 102 * S);
    assert_eq!(c.volume, 22);
    assert_eq!(c.time, t0);
    assert_eq!(c.duration, 12);
    assert_eq!(ctrl.candles.len(), 0);
    // A quote missing a field is a no-op.
    let before = ctrl.tick;
    let silent = Quote { last_price: Some(100 * S), last_size: None, trade_time: Some(t0 + 13) };
    assert!(ctrl.on_tick(silent, t0 + 13).is_none());
    assert_eq!(ctrl.tick, before);
}

/// Appending a candle clears the tick and restarts the clock.
#[test]
fn new_candle_clears_tick() {
    let t0: i64 = 19_724 * 86_400 + 36_000;
    let mut ctrl = Controller::with_tick_delay(
        String::from("TEST"),
        Vec::new(),
        Vec::new(),
        Vec::new(),
        params(),
        10_000,
        t0,
    );
    let quote = Quote { last_price: Some(100 * S), last_size: Some(5), trade_time: Some(t0) };
    ctrl.on_tick(quote, t0);
    assert!(ctrl.tick.is_some());
    ctrl.on_new_candle(mk(t0 + 60, 100 * S, 101 * S, 99 * S, 100 * S, 5), t0 + 120);
    assert!(ctrl.tick.is_none());
    assert_eq!(ctrl.candles.len(), 1);
    assert_eq!(ctrl.tick_published, t0 + 120);
}

/// Two snapshots of an untouched controller agree field by field.
#[test]
fn publish_is_idempotent() {
    let t0: i64 = 19_724 * 86_400 + 36_000;
    let candles = vec![mk(t0, 100 * S, 101 * S, 99 * S, 100 * S, 5)];
    let levels = vec![PriceLevel { price: 99 * S, is_active: false, at: t0 }];
    let ctrl = Controller::with_tick_delay(
        String::from("TEST"),
        candles,
        Vec::new(),
        levels,
        params(),
        10_000,
        t0,
    );
    let a = ctrl.publish();
    let b = ctrl.publish();
    assert_eq!(a.symbol, b.symbol);
    assert_eq!(a.last_updated, b.last_updated);
    assert_eq!(a.last_updated, Some(t0 + 60));
    assert_eq!(a.atr, b.atr);
    assert_eq!(a.price_levels, b.price_levels);
    assert_eq!(a.price_levels_overridden, b.price_levels_overridden);
    assert!(a.price_levels_overridden);
    assert_eq!(a.rejection_ended, b.rejection_ended);
}

/// Every data-frame column is exactly as long as the index, and a
/// mismatched insertion is rejected.
#[test]
fn dataframe_length_invariant() {
    let t0: i64 = 19_724 * 86_400 + 34_200;
    let candles = vec![
        mk(t0, 100 * S, 101 * S, 99 * S, 100 * S, 5),
        mk(t0 + 60, 100 * S, 102 * S, 99 * S, 101 * S, 6),
    ];
    let mut df = DataFrame::from_candles(&candles);
    let (rows, cols) = df.shape();
    assert_eq!(rows, 2);
    assert_eq!(cols, 5);
    for name in ["open", "low", "high", "close", "volume"] {
        let data = df.col(name).expect("column exists");
        assert_eq!(data.len(), rows);
    }
    assert!(!df.insert_column(String::from("ma"), vec![Some(1)]));
    assert!(df.insert_column(String::from("ma"), vec![Some(1), None]));
    let (rows2, cols2) = df.shape();
    assert_eq!(rows2, 2);
    assert_eq!(cols2, 6);
    assert_eq!(df.col("ma").expect("inserted").len(), 2);
}

/// Trimming to one working day keeps only the rows of the last
/// qualifying date, and that date passes the span test.
#[test]
fn trim_working_days_keeps_last_day() {
    // Three weekdays, each spanning seven hours of rows.
    let days: [i64; 3] = [19_723, 19_724, 19_725];
    let mut candles = Vec::new();
    for d in days {
        candles.push(mk(d * 86_400 + 30_000, 100 * S, 101 * S, 99 * S, 100 * S, 5));
        candles.push(mk(d * 86_400 + 55_200, 100 * S, 101 * S, 99 * S, 100 * S, 5));
    }
    let df = DataFrame::from_candles(&candles);
    let trimmed = df.trim_working_days(1, 21_600);
    assert_eq!(trimmed.index().len(), 2);
    assert_eq!(trimmed.index()[0], 19_725 * 86_400 + 30_000);
    assert_eq!(trimmed.index()[1], 19_725 * 86_400 + 55_200);
    let two = df.trim_working_days(2, 21_600);
    assert_eq!(two.index().len(), 4);
    let all = df.trim_working_days(5, 21_600);
    assert_eq!(all.index().len(), 6);
}

/// A weekend row between working days is dropped, not carried along.
#[test]
fn trim_drops_interleaved_weekend() {
    // Tuesday and the following Monday qualify; the Saturday between
    // them holds one stray row.
    let mut candles = Vec::new();
    for d in [19_724i64, 19_730] {
        candles.push(mk(d * 86_400 + 30_000, 100 * S, 101 * S, 99 * S, 100 * S, 5));
        candles.push(mk(d * 86_400 + 55_200, 100 * S, 101 * S, 99 * S, 100 * S, 5));
    }
    candles.insert(2, mk(19_728 * 86_400 + 40_000, 100 * S, 101 * S, 99 * S, 100 * S, 5));
    let df = DataFrame::from_candles(&candles);
    let trimmed = df.trim_working_days(2, 21_600);
    assert_eq!(trimmed.index().len(), 4);
    for ts in trimmed.index() {
        assert!(ts / 86_400 != 19_728);
    }
}

/// The day still in progress is retained even before it spans the
/// working-hours minimum.
#[test]
fn trim_keeps_short_last_day() {
    let mut candles = Vec::new();
    candles.push(mk(19_724 * 86_400 + 30_000, 100 * S, 101 * S, 99 * S, 100 * S, 5));
    candles.push(mk(19_724 * 86_400 + 55_200, 100 * S, 101 * S, 99 * S, 100 * S, 5));
    // One early pre-market row on the next weekday.
    candles.push(mk(19_725 * 86_400 + 30_000, 100 * S, 101 * S, 99 * S, 100 * S, 5));
    let df = DataFrame::from_candles(&candles);
    let one = df.trim_working_days(1, 21_600);
    assert_eq!(one.index().len(), 1);
    assert_eq!(one.index()[0], 19_725 * 86_400 + 30_000);
    let two = df.trim_working_days(2, 21_600);
    assert_eq!(two.index().len(), 3);
}

/// The frame's extremes become candidate levels; clustering drops a
/// near-duplicate and keeps order.
#[test]
fn level_discovery_and_clustering() {
    let t0: i64 = 19_724 * 86_400 + 34_200;
    let candles = vec![
        mk(t0, 100 * S, 105 * S, 99 * S, 100 * S, 5),
        mk(t0 + 60, 100 * S, 104 * S, 98 * S, 101 * S, 6),
        mk(t0 + 120, 101 * S, 106 * S, 100 * S, 102 * S, 7),
    ];
    let df = DataFrame::from_candles(&candles);
    let mut lvs: Vec<PriceLevel> = Vec::new();
    find_min_max(&mut lvs, &df);
    assert_eq!(lvs.len(), 2);
    assert_eq!(lvs[0].price, 98 * S);
    assert_eq!(lvs[0].at, t0 + 60);
    assert_eq!(lvs[1].price, 106 * S);
    assert_eq!(lvs[1].at, t0 + 120);

    let raw = vec![
        PriceLevel { price: 100 * S, is_active: false, at: 1 },
        PriceLevel { price: 100 * S + 2_000, is_active: false, at: 2 },
        PriceLevel { price: 105 * S, is_active: false, at: 3 },
    ];
    let kept = dedupe_price_levels(raw, 4_000);
    assert_eq!(kept.len(), 2);
    assert_eq!(kept[0].price, 100 * S);
    assert_eq!(kept[1].price, 105 * S);
}

/// A chart rebuild aggregates the log and lays out the indicator
/// columns.
#[test]
fn chart_update_builds_frame() {
    let t0: i64 = 19_724 * 86_400 + 34_200;
    let candles = vec![
        mk(t0, 100 * S, 101 * S, 99 * S, 100 * S, 5),
        mk(t0 + 60, 100 * S, 102 * S, 99 * S, 101 * S, 6),
        mk(t0 + 300, 101 * S, 103 * S, 100 * S, 102 * S, 7),
    ];
    let config = ChartConfig {
        timeframe_secs: 300,
        days: 5,
        ema: 9,
        use_divergence: false,
        div_indicator: DivIndicator::Rsi,
        use_vwap: true,
    };
    let mut chart = Chart::new(&candles, config);
    assert_eq!(chart.aggregated.len(), 2);
    let ema = vec![Some(100 * S), Some(101 * S)];
    let osc = vec![Some(50 * S)];
    chart.update_data(&candles, ema, osc, Some(2 * S), 21_600);
    assert_eq!(chart.atr, Some(2 * S));
    assert_eq!(chart.aggregated.len(), 2);
    let (rows, cols) = chart.dataframe.shape();
    assert_eq!(rows, 2);
    assert_eq!(cols, 8);
    let ma = chart.dataframe.col("ma").expect("ma column");
    assert_eq!(ma.len(), 2);
    assert_eq!(ma[1], Some(101 * S));
    // The shorter oscillator series was padded at the front.
    let rsi = chart.dataframe.col("rsi").expect("rsi column");
    assert_eq!(rsi[0], None);
    assert_eq!(rsi[1], Some(50 * S));
    let vwap = chart.dataframe.col("vwap").expect("vwap column");
    assert!(vwap[0].is_some());
    chart.update_divergences(Trend::Flat);
    assert_eq!(chart.divergences.len(), 0);
}

/// The dispatcher keeps one controller per symbol: reinitialising
/// replaces, removing drops, unknown symbols are reported.
#[test]
fn dispatcher_map_transitions() {
    let t0: i64 = 19_724 * 86_400 + 36_000;
    let ctrl = |name: &str| {
        Controller::with_tick_delay(
            String::from(name),
            Vec::new(),
            Vec::new(),
            Vec::new(),
            params(),
            10_000,
            t0,
        )
    };
    let mut disp = Dispatcher { controllers: Vec::new(), use_tick_data: true };
    let acts = disp.reinitialize(ctrl("AAA"));
    assert_eq!(acts.len(), 2);
    disp.reinitialize(ctrl("BBB"));
    assert_eq!(disp.controllers.len(), 2);
    disp.reinitialize(ctrl("AAA"));
    assert_eq!(disp.controllers.len(), 2);
    assert_eq!(disp.find_controller("AAA"), Some(0));
    assert_eq!(disp.find_controller("BBB"), Some(1));
    assert_eq!(disp.find_controller("CCC"), None);
    disp.remove("AAA");
    assert_eq!(disp.controllers.len(), 1);
    assert_eq!(disp.find_controller("BBB"), Some(0));
    disp.remove("CCC");
    assert_eq!(disp.controllers.len(), 1);
}

/// A support rejection drives the controller's level activation and
/// rejection message.
#[test]
fn controller_support_resistance_pass() {
    let t0: i64 = 19_724 * 86_400 + 36_000;
    let p = |x: f64| (x * 10_000.0) as i64;
    let mut candles = Vec::new();
    let rows = [
        (99.0, 101.6, 98.9, 101.5, 10u64),
        (101.5, 101.8, 100.6, 100.8, 10),
        (100.8, 101.0, 100.2, 100.3, 10),
        (100.3, 100.4, 99.95, 100.0, 10),
        (100.0, 100.45, 99.98, 100.4, 12),
        (100.4, 100.85, 100.38, 100.8, 13),
        (100.8, 100.9, 100.78, 100.9, 14),
    ];
    for (k, (o, h, l, c, v)) in rows.iter().enumerate() {
        candles.push(Candle {
            open: p(*o),
            high: p(*h),
            low: p(*l),
            close: p(*c),
            volume: *v,
            time: t0 + (k as i64) * 300,
            duration: 300,
        });
    }
    let chart_cfg = ChartConfig {
        timeframe_secs: 300,
        days: 5,
        ema: 9,
        use_divergence: false,
        div_indicator: DivIndicator::Rsi,
        use_vwap: false,
    };
    let chart = {
        let mut ch = Chart::new(&candles, chart_cfg);
        ch.update_data(&candles, Vec::new(), Vec::new(), Some(1 * S), 21_600);
        ch
    };
    let levels = vec![PriceLevel { price: 100 * S, is_active: false, at: t0 }];
    let mut ctrl = Controller::with_tick_delay(
        String::from("TEST"),
        candles.clone(),
        vec![chart],
        levels,
        params(),
        10_000,
        t0,
    );
    ctrl.find_support_resistance(Trend::Bullish);
    assert!(ctrl.price_levels[0].is_active);
    let rej = ctrl.rejection.expect("rejection found");
    assert_eq!(rej.trend, Trend::Bullish);
    assert_eq!(rej.price_level, 100 * S);
    assert!(!ctrl.rejection_msg.ended);
    assert!(ctrl.rejection_msg.is_imminent);
    assert_eq!(ctrl.rejection_msg.points.len(), 3);
}

/// A full update pass attaches the volume analyses and the published
/// snapshot carries every chart's rows and messages.
#[test]
fn update_pass_messages_and_payload() {
    let d1: i64 = 19_724 * 86_400;
    let d2: i64 = 19_725 * 86_400;
    let mut candles = Vec::new();
    // A full working day, then a short morning today.
    candles.push(mk(d1 + 34_200, 100 * S, 101 * S, 99 * S, 100 * S, 10));
    candles.push(mk(d1 + 36_000, 100 * S, 101 * S, 99 * S, 100 * S, 20));
    candles.push(mk(d1 + 57_000, 100 * S, 101 * S, 99 * S, 100 * S, 30));
    candles.push(mk(d2 + 34_200, 100 * S, 101 * S, 99 * S, 100 * S, 40));
    candles.push(mk(d2 + 36_000, 100 * S, 101 * S, 99 * S, 101 * S, 50));
    let cfg = ChartConfig {
        timeframe_secs: 60,
        days: 5,
        ema: 9,
        use_divergence: false,
        div_indicator: DivIndicator::Rsi,
        use_vwap: false,
    };
    let chart = Chart::new(&candles, cfg);
    let now = candles.last().unwrap().time + 60;
    let mut ctrl = Controller::with_tick_delay(
        String::from("TEST"),
        candles,
        vec![chart],
        Vec::new(),
        params(),
        10_000,
        now,
    );
    let series = vec![ChartSeries {
        ema: Vec::new(),
        osc: Vec::new(),
        atr: Some(1 * S),
        prev_vol_ema: Some(25),
        predicted_total: None,
    }];
    ctrl.update_charts(Trend::Flat, series, now);
    let msgs = &ctrl.charts[0].messages;
    assert!(msgs.contains(&VolumeMessage::PredictorUnavailable));
    assert!(msgs.iter().any(|m| matches!(m, VolumeMessage::DailyVolume { .. })));
    assert!(msgs.iter().any(|m| matches!(m, VolumeMessage::Rvol { baseline: 25, .. })));
    let snap = ctrl.publish();
    assert_eq!(snap.charts.len(), 1);
    assert_eq!(snap.charts[0].timeframe_secs, 60);
    assert_eq!(snap.charts[0].atr, Some(1 * S));
    assert_eq!(snap.charts[0].messages, ctrl.charts[0].messages);
    let (rows, _) = ctrl.charts[0].dataframe.shape();
    assert_eq!(snap.charts[0].dataframe.index.len(), rows);
}

/// Favourites are forwarded to the owning controller; unknown symbols
/// are reported.
#[test]
fn dispatcher_forwards_favorite() {
    let t0: i64 = 19_724 * 86_400 + 36_000;
    let ctrl = Controller::with_tick_delay(
        String::from("AAA"),
        Vec::new(),
        Vec::new(),
        Vec::new(),
        params(),
        10_000,
        t0,
    );
    let mut disp = Dispatcher { controllers: Vec::new(), use_tick_data: false };
    disp.reinitialize(ctrl);
    assert!(!disp.controllers[0].is_favorite);
    assert!(disp.set_favorite("AAA", true));
    assert!(disp.controllers[0].is_favorite);
    assert!(!disp.set_favorite("BBB", true));
}

/// The day's price change reads the close before trading opened.
#[test]
fn price_change_reads_pre_open_close() {
    let d: i64 = 19_724 * 86_400;
    let times = vec![d + 30_000, d + 36_000, d + 40_000];
    let closes = vec![100 * S, 102 * S, 105 * S];
    assert_eq!(price_change(&times, &closes, 34_200), Some(5 * S));
    let times2 = vec![d + 36_000, d + 40_000];
    let closes2 = vec![102 * S, 105 * S];
    assert_eq!(price_change(&times2, &closes2, 34_200), None);
}
