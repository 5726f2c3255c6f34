//! The per-symbol controller: the append-only candle log, one chart per
//! configured timeframe, the ephemeral tick candle with its throttled
//! publication, the price-level state, and the rejection bookkeeping.
//!
//! The dispatcher owns controllers exclusively; every operation here is a
//! plain state transition. Wall-clock instants are arguments: the caller
//! reads the clock, the controller only decides.

use vstd::prelude::*;

use crate::aggregate::{agg_spec, aggregate, lemma_agg_log_wf, log_wf, vol_sum};
use crate::candle::{abs_i64, price_ok, time_ok, Candle};
use crate::chart::Chart;
use crate::dataframe::{spec_day_of, spec_tod_of, DAY_SECS};
use crate::support_resistance::{
    check_resistance, check_resistance_spec, check_support, check_support_spec, support_rejection,
    PriceRejection,
};
use crate::trend::Trend;

verus! {

/// A historical pivot price considered as support or resistance.
#[derive(Clone, Copy, Debug, PartialEq, Eq, Structural)]
pub struct PriceLevel {
    pub price: i64,
    pub is_active: bool,
    pub at: i64,
}

impl PriceLevel {
    /// A fresh, inactive level at a price and instant.
    pub fn new(price: i64, at: i64) -> (r: PriceLevel)
        ensures
            r == (PriceLevel { price, is_active: false, at }),
    {
        PriceLevel { price, is_active: false, at }
    }
}

/// The level-one quote fields the engine reads. Each may be absent.
#[derive(Clone, Copy, Debug, PartialEq, Eq, Structural)]
pub struct Quote {
    pub last_price: Option<i64>,
    pub last_size: Option<u64>,
    pub trade_time: Option<i64>,
}

/// The rejection message shown with a chart: the current or most recent
/// rejection's direction, imminence, discovery instant, whether it has
/// ended, and its chart anchor points.
pub struct RejectionMessage {
    pub trend: Trend,
    pub is_imminent: bool,
    pub found_at: i64,
    pub ended: bool,
    pub points: Vec<(i64, i64)>,
}

/// The controller-level trading parameters.
#[derive(Clone, Copy, Debug, PartialEq, Eq, Structural)]
pub struct TradeParams {
    /// Regular trading hours as seconds of the day.
    pub trading_start: i64,
    pub trading_end: i64,
    /// The wider open hours the volume analytics read, as seconds of
    /// the day.
    pub open_start: i64,
    pub open_end: i64,
    /// The level-clustering threshold, in hundredths of a percent.
    pub sr_threshold_permyriad: u32,
    /// The minimum working-day span in seconds.
    pub min_span: i64,
}

pub open spec fn params_wf(p: TradeParams) -> bool {
    &&& 0 <= p.trading_start <= 86_400
    &&& 0 <= p.trading_end <= 86_400
    &&& 0 <= p.open_start <= 86_400
    &&& 0 <= p.open_end <= 86_400
    &&& p.sr_threshold_permyriad <= 10000
    &&& 0 <= p.min_span <= 86_400
}

/// The per-symbol state.
pub struct Controller {
    pub symbol: String,
    pub candles: Vec<Candle>,
    pub charts: Vec<Chart>,
    pub tick: Option<Candle>,
    pub tick_published: i64,
    pub tick_publish_delay_ms: i64,
    pub price_levels_overridden: bool,
    pub price_levels: Vec<PriceLevel>,
    pub rejection: Option<PriceRejection>,
    pub rejection_msg: RejectionMessage,
    pub is_favorite: bool,
    pub params: TradeParams,
}

/// The controller's invariant: a healthy, strictly time-ordered log,
/// well-formed chart configurations, valid parameters and a sane delay.
pub open spec fn ctrl_wf(c: Controller) -> bool {
    &&& log_wf(c.candles@)
    &&& forall|i: int, j: int|
        0 <= i < j < c.candles@.len() ==> c.candles@[i].time < c.candles@[j].time
    &&& forall|i: int|
        0 <= i < c.charts@.len() ==> crate::chart::config_wf((#[trigger] c.charts@[i]).config)
    &&& params_wf(c.params)
    &&& 0 < c.tick_publish_delay_ms <= 60_000
    &&& time_ok(c.tick_published)
    &&& c.tick matches Some(t) ==> time_ok(t.time)
    &&& forall|i: int| 0 <= i < c.price_levels@.len() ==> price_ok((#[trigger] c.price_levels@[i]).price)
    &&& 0 <= c.rejection_msg.found_at <= 8_000_000_000
    &&& c.candles@.len() < 1_000_000
}

/// What one tick does to the ephemeral candle: the first tick opens it at
/// the traded price, later ticks stretch its range, move its close, add
/// their size and extend its duration to now.
pub open spec fn accumulate_tick(
    prev: Option<Candle>,
    last: i64,
    size: u64,
    time: i64,
    now: i64,
) -> Candle {
    match prev {
        Option::None => Candle {
            open: last,
            low: last,
            high: last,
            close: last,
            volume: size,
            time,
            duration: (now - time) as i64,
        },
        Option::Some(t) => Candle {
            open: t.open,
            low: if last < t.low {
                last
            } else {
                t.low
            },
            high: if last > t.high {
                last
            } else {
                t.high
            },
            close: last,
            volume: (t.volume + size) as u64,
            time: t.time,
            duration: (now - t.time) as i64,
        },
    }
}

impl Controller {
    /// Append a confirmed candle to the log, clear the ephemeral tick,
    /// and restart the tick-publication clock at `now`. The candle must
    /// arrive strictly after the last one.
    pub fn on_new_candle(&mut self, candle: Candle, now: i64)
        requires
            ctrl_wf(*old(self)),
            candle.wf(),
            price_ok(candle.open),
            price_ok(candle.low),
            price_ok(candle.high),
            price_ok(candle.close),
            time_ok(candle.time),
            candle.duration <= 4_000_000_000,
            candle.volume <= i64::MAX,
            vol_sum(old(self).candles@) + candle.volume <= i64::MAX,
            old(self).candles@.len() > 0 ==> old(self).candles@.last().time < candle.time,
            old(self).candles@.len() < 999_999,
            time_ok(now),
        ensures
            ctrl_wf(*final(self)),
            final(self).candles@ == old(self).candles@.push(candle),
            final(self).tick is None,
            final(self).tick_published == now,
            final(self).charts == old(self).charts,
            final(self).price_levels == old(self).price_levels,
            final(self).symbol == old(self).symbol,
            final(self).params == old(self).params,
            final(self).tick_publish_delay_ms == old(self).tick_publish_delay_ms,
    {
        proof {
            let s = self.candles@;
            assert(s.push(candle).drop_last() =~= s);
            assert(forall|i: int| 0 <= i < s.len() ==> #[trigger] s.push(candle)[i] == s[i]);
        }
        self.candles.push(candle);
        self.tick = None;
        self.tick_published = now;
    }

    /// Feed one level-one quote into the ephemeral tick candle.
    ///
    /// A quote missing its traded price, size or instant changes
    /// nothing. Otherwise the tick candle accumulates the trade; when
    /// the throttling delay has elapsed since the last tick publication
    /// the accumulated candle is handed back for a temporary chart pass
    /// and the clock restarts. The candle log itself never changes.
    pub fn on_tick(&mut self, quote: Quote, now: i64) -> (due: Option<Candle>)
        requires
            ctrl_wf(*old(self)),
            time_ok(now),
            quote.last_price matches Some(p) ==> price_ok(p),
            quote.trade_time matches Some(t) ==> time_ok(t),
            quote.last_size matches Some(z) ==> z <= 1_000_000_000_000,
            old(self).tick matches Some(t) ==> t.volume <= u64::MAX - 1_000_000_000_000,
        ensures
            final(self).candles == old(self).candles,
            final(self).charts == old(self).charts,
            final(self).price_levels == old(self).price_levels,
            final(self).symbol == old(self).symbol,
            final(self).params == old(self).params,
            final(self).tick_publish_delay_ms == old(self).tick_publish_delay_ms,
            !(quote.last_price is Some && quote.last_size is Some && quote.trade_time is Some)
                ==> final(self).tick == old(self).tick && final(self).tick_published == old(self).tick_published && due is None,
            (quote.last_price is Some && quote.last_size is Some && quote.trade_time is Some)
                ==> ({
                let t = accumulate_tick(
                    old(self).tick,
                    quote.last_price.unwrap(),
                    quote.last_size.unwrap(),
                    quote.trade_time.unwrap(),
                    now,
                );
                let is_due = (now - old(self).tick_published) * 1000 >= old(self).tick_publish_delay_ms;
                &&& final(self).tick == Some(t)
                &&& due == if is_due {
                    Some(t)
                } else {
                    Option::<Candle>::None
                }
                &&& final(self).tick_published == if is_due {
                    now
                } else {
                    old(self).tick_published
                }
            }),
            ctrl_wf(*final(self)),
    {
        let (last, size, time) = match (quote.last_price, quote.last_size, quote.trade_time) {
            (Option::Some(p), Option::Some(z), Option::Some(t)) => (p, z, t),
            _ => {
                return None;
            },
        };
        let updated = match self.tick {
            Option::None => Candle {
                open: last,
                low: last,
                high: last,
                close: last,
                volume: size,
                time,
                duration: now - time,
            },
            Option::Some(t) => Candle {
                open: t.open,
                low: if last < t.low {
                    last
                } else {
                    t.low
                },
                high: if last > t.high {
                    last
                } else {
                    t.high
                },
                close: last,
                volume: t.volume + size,
                time: t.time,
                duration: now - t.time,
            },
        };
        self.tick = Some(updated);
        if (now - self.tick_published) * 1000 >= self.tick_publish_delay_ms {
            self.tick_published = now;
            Some(updated)
        } else {
            None
        }
    }
}

/// The indicator series one chart needs for an update: the EMA and the
/// configured oscillator over its aggregation, and the reference range.
pub struct ChartSeries {
    pub ema: Vec<Option<i64>>,
    pub osc: Vec<Option<i64>>,
    pub atr: Option<i64>,
    /// The EMA of the prior buckets' volumes, when computed.
    pub prev_vol_ema: Option<i64>,
    /// The predictor's expected daily total, when a predictor ran.
    pub predicted_total: Option<i64>,
}

pub open spec fn series_in_range(s: ChartSeries) -> bool {
    forall|k: int|
        0 <= k < s.osc@.len() ==> ((#[trigger] s.osc@[k]) matches Some(v) ==> price_ok(v))
}

impl Controller {
    /// One full update pass under the supplied trend: rebuild every
    /// chart's data from the log with its indicator series, refresh its
    /// volume analyses and reconcile its divergences; recompute the
    /// price levels unless a client override holds them; then run the
    /// rejection detection. `now` is the end instant of the last raw
    /// candle.
    #[verifier::rlimit(100)]
    pub fn update_charts(&mut self, trend: Trend, series: Vec<ChartSeries>, now: i64)
        requires
            ctrl_wf(*old(self)),
            series@.len() == old(self).charts@.len(),
            forall|j: int| 0 <= j < series@.len() ==> series_in_range(#[trigger] series@[j]),
            time_ok(now),
        ensures
            ctrl_wf(*final(self)),
            final(self).candles == old(self).candles,
            final(self).symbol == old(self).symbol,
            final(self).params == old(self).params,
            final(self).tick == old(self).tick,
            final(self).tick_published == old(self).tick_published,
            final(self).charts@.len() == old(self).charts@.len(),
            final(self).price_levels_overridden == old(self).price_levels_overridden,
            forall|j: int|
                0 <= j < old(self).charts@.len() ==> (#[trigger] final(self).charts@[j]).config
                    == old(self).charts@[j].config,
            forall|j: int|
                0 <= j < old(self).charts@.len() ==> (#[trigger] final(self).charts@[j]).aggregated@ == agg_spec(
                    old(self).candles@,
                    old(self).charts@[j].config.timeframe_secs as int,
                ),
            forall|j: int|
                0 <= j < old(self).charts@.len() ==> crate::chart::chart_frame_ok(
                    (#[trigger] final(self).charts@[j]).dataframe,
                    agg_spec(
                        old(self).candles@,
                        old(self).charts@[j].config.timeframe_secs as int,
                    ),
                    series@[j].ema@,
                    series@[j].osc@,
                    old(self).charts@[j].config.days as int,
                    old(self).params.min_span as int,
                    old(self).charts@[j].config.use_vwap,
                ),
            forall|j: int|
                0 <= j < old(self).charts@.len() ==> (#[trigger] final(self).charts@[j]).atr
                    == series@[j].atr,
            forall|j: int|
                0 <= j < old(self).charts@.len() ==> (#[trigger] final(self).charts@[j]).messages@ == crate::chart::volume_messages_spec(
                    agg_spec(
                        old(self).candles@,
                        old(self).charts@[j].config.timeframe_secs as int,
                    ),
                    old(self).charts@[j].config.timeframe_secs,
                    old(self).params.open_start as int,
                    old(self).params.open_end as int,
                    old(self).params.min_span as int,
                    series@[j].prev_vol_ema,
                    series@[j].predicted_total,
                    now,
                ),
            forall|j: int|
                0 <= j < old(self).charts@.len() && old(self).charts@[j].config.use_divergence
                    ==> (#[trigger] final(self).charts@[j]).divergences@
                    == crate::chart::reconcile(
                    old(self).charts@[j].divergences@,
                    crate::chart::div_found_spec(final(self).charts@[j].dataframe, trend),
                    crate::chart::last_time_opt(final(self).charts@[j].dataframe),
                ),
            forall|j: int|
                0 <= j < old(self).charts@.len() && !old(self).charts@[j].config.use_divergence
                    ==> (#[trigger] final(self).charts@[j]).divergences@ == old(self).charts@[j].divergences@,
            ({
                let levels_mid = if !old(self).price_levels_overridden && upl_gate_from(
                    old(self).candles@,
                    old(self).price_levels@,
                    old(self).params,
                ) {
                    discovered_from(old(self).candles@, old(self).params)
                } else {
                    old(self).price_levels@
                };
                let atr0 = if old(self).charts@.len() == 0 {
                    Option::<i64>::None
                } else {
                    series@[0].atr
                };
                let rej = sr_rejection_from(
                    old(self).candles@,
                    levels_mid,
                    atr0,
                    old(self).params,
                    trend,
                );
                &&& final(self).rejection == rej
                &&& final(self).rejection_msg.ended == (rej is None)
                &&& final(self).price_levels@.len() == levels_mid.len()
                &&& forall|i: int|
                    0 <= i < levels_mid.len() ==> (#[trigger] final(self).price_levels@[i]).price == levels_mid[i].price && final(self).price_levels@[i].at == levels_mid[i].at
            }),
    {
        let ghost c0 = *self;
        let n = self.charts.len();
        let mut rest = series;
        let mut j: usize = 0;
        proof {
            assert(rest@ =~= series@.skip(0));
        }
        while j < n
            invariant
                0 <= j <= n,
                n == self.charts@.len(),
                self.candles == c0.candles,
                self.symbol == c0.symbol,
                self.params == c0.params,
                self.tick == c0.tick,
                self.tick_published == c0.tick_published,
                self.tick_publish_delay_ms == c0.tick_publish_delay_ms,
                self.price_levels == c0.price_levels,
                self.price_levels_overridden == c0.price_levels_overridden,
                self.rejection == c0.rejection,
                self.rejection_msg == c0.rejection_msg,
                self.is_favorite == c0.is_favorite,
                ctrl_wf(c0),
                ctrl_wf(*self),
                time_ok(now),
                n == series@.len(),
                rest@ == series@.skip(j as int),
                forall|k: int| 0 <= k < series@.len() ==> series_in_range(#[trigger] series@[k]),
                forall|k: int|
                    0 <= k < n ==> (#[trigger] self.charts@[k]).config == c0.charts@[k].config,
                forall|k: int| j <= k < n ==> #[trigger] self.charts@[k] == c0.charts@[k],
                forall|k: int|
                    0 <= k < j ==> (#[trigger] self.charts@[k]).aggregated@ == agg_spec(
                        c0.candles@,
                        c0.charts@[k].config.timeframe_secs as int,
                    ),
                forall|k: int|
                    0 <= k < j ==> crate::chart::chart_frame_ok(
                        (#[trigger] self.charts@[k]).dataframe,
                        agg_spec(c0.candles@, c0.charts@[k].config.timeframe_secs as int),
                        series@[k].ema@,
                        series@[k].osc@,
                        c0.charts@[k].config.days as int,
                        c0.params.min_span as int,
                        c0.charts@[k].config.use_vwap,
                    ),
                forall|k: int|
                    0 <= k < j ==> (#[trigger] self.charts@[k]).atr == series@[k].atr,
                forall|k: int|
                    0 <= k < j ==> (#[trigger] self.charts@[k]).messages@
                        == crate::chart::volume_messages_spec(
                        agg_spec(c0.candles@, c0.charts@[k].config.timeframe_secs as int),
                        c0.charts@[k].config.timeframe_secs,
                        c0.params.open_start as int,
                        c0.params.open_end as int,
                        c0.params.min_span as int,
                        series@[k].prev_vol_ema,
                        series@[k].predicted_total,
                        now,
                    ),
                forall|k: int|
                    0 <= k < j && c0.charts@[k].config.use_divergence ==> (#[trigger] self.charts@[k]).divergences@
                        == crate::chart::reconcile(
                        c0.charts@[k].divergences@,
                        crate::chart::div_found_spec(self.charts@[k].dataframe, trend),
                        crate::chart::last_time_opt(self.charts@[k].dataframe),
                    ),
                forall|k: int|
                    0 <= k < j && !c0.charts@[k].config.use_divergence
                        ==> (#[trigger] self.charts@[k]).divergences@ == c0.charts@[k].divergences@,
            decreases n - j,
        {
            proof {
                assert(series@.skip(j as int)[0] == series@[j as int]);
            }
            let s = rest.remove(0);
            let ghost cs_pre = self.charts@;
            let mut ch = self.charts.remove(j);
            let ghost cfg = ch.config;
            proof {
                lemma_agg_log_wf(c0.candles@, cfg.timeframe_secs as int);
                crate::aggregate::lemma_agg_len_le(c0.candles@, cfg.timeframe_secs as int);
            }
            ch.update_data(&self.candles, s.ema, s.osc, s.atr, self.params.min_span);
            ch.analyze_volume(
                s.prev_vol_ema,
                s.predicted_total,
                now,
                self.params.open_start,
                self.params.open_end,
                self.params.min_span,
            );
            proof {
                if cfg.use_divergence {
                    crate::chart::lemma_frame_divergence_ready(
                        ch.dataframe,
                        agg_spec(c0.candles@, cfg.timeframe_secs as int),
                        series@[j as int].ema@,
                        series@[j as int].osc@,
                        cfg.days as int,
                        self.params.min_span as int,
                        cfg.use_vwap,
                    );
                }
            }
            ch.update_divergences(trend);
            self.charts.insert(j, ch);
            proof {
                cs_pre.remove_ensures(j as int);
                assert forall|k: int|
                    0 <= k < n && k != j implies #[trigger] self.charts@[k] == cs_pre[k] by {
                    if k < j {
                        assert(self.charts@[k] == cs_pre.remove(j as int)[k]);
                    } else {
                        assert(self.charts@[k] == cs_pre.remove(j as int)[k - 1]);
                    }
                }
                assert(rest@ =~= series@.skip(j + 1));
                assert(self.charts@[j as int] == ch);
            }
            j = j + 1;
        }
        let ghost c_pre_levels = *self;
        if !self.price_levels_overridden {
            self.update_price_levels();
        }
        let ghost c_mid = *self;
        proof {
            assert(upl_gate(c_pre_levels) == upl_gate_from(
                c0.candles@,
                c0.price_levels@,
                c0.params,
            ));
            assert(discovered_levels(c_pre_levels) == discovered_from(c0.candles@, c0.params));
        }
        self.find_support_resistance(trend);
        proof {
            let levels_mid = if !c0.price_levels_overridden && upl_gate_from(
                c0.candles@,
                c0.price_levels@,
                c0.params,
            ) {
                discovered_from(c0.candles@, c0.params)
            } else {
                c0.price_levels@
            };
            assert(c_mid.price_levels@ == levels_mid);
            let atr0 = if c0.charts@.len() == 0 {
                Option::<i64>::None
            } else {
                series@[0].atr
            };
            if c0.charts@.len() > 0 {
                assert(c_mid.charts@[0].atr == series@[0].atr);
            }
            assert(sr_rejection(c_mid, trend) == sr_rejection_from(
                c0.candles@,
                levels_mid,
                atr0,
                c0.params,
                trend,
            ));
        }
    }
}

/// One chart's published payload: the timeframe, the frame rows, the
/// divergences, the volume analyses and the reference range.
pub struct ChartPayload {
    pub timeframe_secs: i64,
    pub dataframe: crate::dataframe::DataFrame,
    pub divergences: Vec<crate::divergence::Divergence>,
    pub messages: Vec<crate::volume::VolumeMessage>,
    pub atr: Option<i64>,
}

/// A payload reproduces its chart's visible state exactly.
pub open spec fn payload_matches(p: ChartPayload, ch: Chart) -> bool {
    &&& p.timeframe_secs == ch.config.timeframe_secs
    &&& p.dataframe.index@ == ch.dataframe.index@
    &&& p.dataframe.cols@.len() == ch.dataframe.cols@.len()
    &&& forall|k: int|
        0 <= k < ch.dataframe.cols@.len() ==> (#[trigger] p.dataframe.cols@[k]).name@
            == ch.dataframe.cols@[k].name@
    &&& forall|k: int|
        0 <= k < ch.dataframe.cols@.len() ==> (#[trigger] p.dataframe.cols@[k]).data@
            == ch.dataframe.cols@[k].data@
    &&& p.divergences@ == ch.divergences@
    &&& p.messages@ == ch.messages@
    &&& p.atr == ch.atr
}

/// The published chart-update payload, as plain values; serialisation is
/// the caller's business.
pub struct Snapshot {
    pub symbol: String,
    pub last_updated: Option<i64>,
    pub atr: Option<i64>,
    pub charts: Vec<ChartPayload>,
    pub price_levels: Vec<PriceLevel>,
    pub price_levels_overridden: bool,
    pub rejection_trend: Trend,
    pub rejection_is_imminent: bool,
    pub rejection_found_at: i64,
    pub rejection_ended: bool,
}

/// Exactly what a published snapshot holds, as a function of the
/// controller state alone.
pub open spec fn publish_post(c: Controller, r: Snapshot) -> bool {
    &&& r.symbol@ == c.symbol@
    &&& r.charts@.len() == c.charts@.len()
    &&& forall|j: int|
        0 <= j < c.charts@.len() ==> payload_matches(#[trigger] r.charts@[j], c.charts@[j])
    &&& r.last_updated == (if c.candles@.len() > 0 {
        Some((c.candles@.last().time + c.candles@.last().duration) as i64)
    } else {
        Option::<i64>::None
    })
    &&& r.atr == (if c.charts@.len() > 0 {
        c.charts@.last().atr
    } else {
        Option::<i64>::None
    })
    &&& r.price_levels@ == c.price_levels@
    &&& r.price_levels_overridden == c.price_levels_overridden
    &&& r.rejection_trend == c.rejection_msg.trend
    &&& r.rejection_is_imminent == c.rejection_msg.is_imminent
    &&& r.rejection_found_at == c.rejection_msg.found_at
    &&& r.rejection_ended == c.rejection_msg.ended
}

impl Controller {
    /// Assemble the chart-update snapshot: the symbol, the end instant
    /// of the last candle, the largest timeframe's reference range, the
    /// price levels and the rejection message. Publishing reads state
    /// and changes nothing.
    pub fn publish(&self) -> (r: Snapshot)
        requires
            ctrl_wf(*self),
        ensures
            publish_post(*self, r),
    {
        let symbol = self.symbol.clone();
        let last_updated = if self.candles.len() > 0 {
            let c = self.candles[self.candles.len() - 1];
            Some(c.time + c.duration)
        } else {
            None
        };
        let atr = if self.charts.len() > 0 {
            self.charts[self.charts.len() - 1].atr
        } else {
            None
        };
        let mut price_levels: Vec<PriceLevel> = Vec::new();
        let mut i: usize = 0;
        while i < self.price_levels.len()
            invariant
                0 <= i <= self.price_levels@.len(),
                price_levels@.len() == i,
                forall|k: int| 0 <= k < i ==> price_levels@[k] == self.price_levels@[k],
            decreases self.price_levels@.len() - i,
        {
            price_levels.push(self.price_levels[i]);
            i = i + 1;
        }
        proof {
            assert(price_levels@ =~= self.price_levels@);
        }
        let mut charts: Vec<ChartPayload> = Vec::new();
        let mut j: usize = 0;
        while j < self.charts.len()
            invariant
                0 <= j <= self.charts@.len(),
                charts@.len() == j,
                forall|k: int|
                    0 <= k < j ==> payload_matches(#[trigger] charts@[k], self.charts@[k]),
            decreases self.charts@.len() - j,
        {
            let ch = &self.charts[j];
            let dataframe = ch.dataframe.duplicate();
            let ghost gdivs = ch.divergences@;
            let mut divergences: Vec<crate::divergence::Divergence> = Vec::new();
            let mut k: usize = 0;
            while k < ch.divergences.len()
                invariant
                    0 <= k <= gdivs.len(),
                    gdivs == ch.divergences@,
                    divergences@.len() == k,
                    forall|q: int| 0 <= q < k ==> divergences@[q] == gdivs[q],
                decreases gdivs.len() - k,
            {
                divergences.push(ch.divergences[k]);
                k = k + 1;
            }
            let ghost gmsgs = ch.messages@;
            let mut messages: Vec<crate::volume::VolumeMessage> = Vec::new();
            let mut k2: usize = 0;
            while k2 < ch.messages.len()
                invariant
                    0 <= k2 <= gmsgs.len(),
                    gmsgs == ch.messages@,
                    messages@.len() == k2,
                    forall|q: int| 0 <= q < k2 ==> messages@[q] == gmsgs[q],
                decreases gmsgs.len() - k2,
            {
                messages.push(ch.messages[k2]);
                k2 = k2 + 1;
            }
            proof {
                assert(divergences@ =~= gdivs);
                assert(messages@ =~= gmsgs);
            }
            charts.push(
                ChartPayload {
                    timeframe_secs: ch.config.timeframe_secs,
                    dataframe,
                    divergences,
                    messages,
                    atr: ch.atr,
                },
            );
            j = j + 1;
        }
        Snapshot {
            symbol,
            last_updated,
            atr,
            charts,
            price_levels,
            price_levels_overridden: self.price_levels_overridden,
            rejection_trend: self.rejection_msg.trend,
            rejection_is_imminent: self.rejection_msg.is_imminent,
            rejection_found_at: self.rejection_msg.found_at,
            rejection_ended: self.rejection_msg.ended,
        }
    }
}

/// Publish idempotence: two snapshots taken from the same state without
/// interleaving input agree in every field.
pub proof fn lemma_publish_idempotent(c: Controller, r1: Snapshot, r2: Snapshot)
    requires
        publish_post(c, r1),
        publish_post(c, r2),
    ensures
        r1.symbol@ == r2.symbol@,
        r1.last_updated == r2.last_updated,
        r1.atr == r2.atr,
        r1.charts@.len() == r2.charts@.len(),
        forall|j: int|
            0 <= j < r1.charts@.len() ==> payload_eq(#[trigger] r1.charts@[j], r2.charts@[j]),
        r1.price_levels@ == r2.price_levels@,
        r1.price_levels_overridden == r2.price_levels_overridden,
        r1.rejection_trend == r2.rejection_trend,
        r1.rejection_is_imminent == r2.rejection_is_imminent,
        r1.rejection_found_at == r2.rejection_found_at,
        r1.rejection_ended == r2.rejection_ended,
{
    assert forall|j: int|
        0 <= j < r1.charts@.len() implies payload_eq(#[trigger] r1.charts@[j], r2.charts@[j]) by {
        assert(payload_matches(r1.charts@[j], c.charts@[j]));
        assert(payload_matches(r2.charts@[j], c.charts@[j]));
    }
}

/// Two payloads agree in every visible field.
pub open spec fn payload_eq(a: ChartPayload, b: ChartPayload) -> bool {
    &&& a.timeframe_secs == b.timeframe_secs
    &&& a.dataframe.index@ == b.dataframe.index@
    &&& a.dataframe.cols@.len() == b.dataframe.cols@.len()
    &&& forall|k: int|
        0 <= k < a.dataframe.cols@.len() ==> (#[trigger] a.dataframe.cols@[k]).name@
            == b.dataframe.cols@[k].name@
    &&& forall|k: int|
        0 <= k < a.dataframe.cols@.len() ==> (#[trigger] a.dataframe.cols@[k]).data@
            == b.dataframe.cols@[k].data@
    &&& a.divergences@ == b.divergences@
    &&& a.messages@ == b.messages@
    &&& a.atr == b.atr
}

/// Relies on rand's `random_range` over the non-empty range
/// `5_000..15_000`: the draw lies in that half-open range; nothing else
/// is promised of it.
#[verifier::external_body]
fn random_tick_delay_ms() -> (r: i64)
    ensures
        5_000 <= r < 15_000,
{
    let ms: i64 = rand::random_range(5_000..15_000);
    ms
}

impl Controller {
    /// A controller over an initial log, with an explicitly chosen
    /// tick-publication delay.
    pub fn with_tick_delay(
        symbol: String,
        candles: Vec<Candle>,
        charts: Vec<Chart>,
        price_levels: Vec<PriceLevel>,
        params: TradeParams,
        tick_publish_delay_ms: i64,
        now: i64,
    ) -> (r: Controller)
        requires
            log_wf(candles@),
            candles@.len() < 1_000_000,
            forall|i: int, j: int| 0 <= i < j < candles@.len() ==> candles@[i].time < candles@[j].time,
            forall|i: int|
                0 <= i < charts@.len() ==> crate::chart::config_wf((#[trigger] charts@[i]).config),
            params_wf(params),
            forall|i: int|
                0 <= i < price_levels@.len() ==> price_ok((#[trigger] price_levels@[i]).price),
            0 < tick_publish_delay_ms <= 60_000,
            time_ok(now),
        ensures
            ctrl_wf(r),
            r.symbol == symbol,
            r.candles == candles,
            r.charts == charts,
            r.tick is None,
            r.tick_published == now,
            r.tick_publish_delay_ms == tick_publish_delay_ms,
            r.price_levels_overridden == (price_levels@.len() > 0),
            r.price_levels == price_levels,
            r.rejection is None,
            r.rejection_msg.trend == Trend::Flat,
            r.rejection_msg.is_imminent == false,
            r.rejection_msg.found_at == 0,
            r.rejection_msg.ended == true,
            r.rejection_msg.points@.len() == 0,
            r.is_favorite == false,
            r.params == params,
    {
        let overridden = price_levels.len() > 0;
        Controller {
            symbol,
            candles,
            charts,
            tick: None,
            tick_published: now,
            tick_publish_delay_ms,
            price_levels_overridden: overridden,
            price_levels,
            rejection: None,
            rejection_msg: RejectionMessage {
                trend: Trend::Flat,
                is_imminent: false,
                found_at: 0,
                ended: true,
                points: Vec::new(),
            },
            is_favorite: false,
            params,
        }
    }

    /// Mark or unmark the symbol as a favourite; nothing else changes.
    pub fn set_favorite(&mut self, is_favorite: bool)
        requires
            ctrl_wf(*old(self)),
        ensures
            ctrl_wf(*final(self)),
            final(self).is_favorite == is_favorite,
            final(self).candles == old(self).candles,
            final(self).charts == old(self).charts,
            final(self).symbol == old(self).symbol,
            final(self).params == old(self).params,
            final(self).tick == old(self).tick,
            final(self).tick_published == old(self).tick_published,
            final(self).tick_publish_delay_ms == old(self).tick_publish_delay_ms,
            final(self).price_levels == old(self).price_levels,
            final(self).price_levels_overridden == old(self).price_levels_overridden,
            final(self).rejection == old(self).rejection,
            final(self).rejection_msg == old(self).rejection_msg,
    {
        self.is_favorite = is_favorite;
    }

    /// A controller over an initial log, with the tick-publication delay
    /// drawn at random between five and fifteen seconds.
    pub fn new(
        symbol: String,
        candles: Vec<Candle>,
        charts: Vec<Chart>,
        price_levels: Vec<PriceLevel>,
        params: TradeParams,
        now: i64,
    ) -> (r: Controller)
        requires
            log_wf(candles@),
            candles@.len() < 1_000_000,
            forall|i: int, j: int| 0 <= i < j < candles@.len() ==> candles@[i].time < candles@[j].time,
            forall|i: int|
                0 <= i < charts@.len() ==> crate::chart::config_wf((#[trigger] charts@[i]).config),
            params_wf(params),
            forall|i: int|
                0 <= i < price_levels@.len() ==> price_ok((#[trigger] price_levels@[i]).price),
            time_ok(now),
        ensures
            ctrl_wf(r),
            r.symbol == symbol,
            r.candles == candles,
            r.charts == charts,
            r.tick is None,
            r.tick_published == now,
            5_000 <= r.tick_publish_delay_ms < 15_000,
            r.price_levels_overridden == (price_levels@.len() > 0),
            r.price_levels == price_levels,
            r.rejection is None,
            r.params == params,
    {
        let delay = random_tick_delay_ms();
        Controller::with_tick_delay(symbol, candles, charts, price_levels, params, delay, now)
    }
}

/// Whether the discovery pass recomputes the levels: a candle exists
/// and either no levels are known yet or the last candle closes inside
/// the half hour before regular trading starts.
pub open spec fn upl_gate_from(candles: Seq<Candle>, levels: Seq<PriceLevel>, params: TradeParams) -> bool {
    &&& candles.len() > 0
    &&& (levels.len() == 0 || {
        let tod = spec_tod_of((candles.last().time + candles.last().duration) as i64);
        params.trading_start - 1800 <= tod && tod < params.trading_start
    })
}

pub open spec fn upl_gate(c: Controller) -> bool {
    upl_gate_from(c.candles@, c.price_levels@, c.params)
}

/// The levels the discovery pass computes: the extremes of yesterday's
/// regular hours, of the overnight session, of the trading week and of
/// the trading month, over the half-hour aggregation, clustered by the
/// threshold around the last close.
pub open spec fn discovered_from(candles: Seq<Candle>, params: TradeParams) -> Seq<PriceLevel> {
    let agg30 = agg_spec(candles, 1800);
    let ftimes = crate::chart::times_of(agg30);
    let lows = crate::chart::low_cells(agg30);
    let highs = crate::chart::high_cells(agg30);
    let span = params.min_span as int;
    let kd1 = crate::dataframe::retained_days(ftimes, span, 1);
    let idx1 = crate::dataframe::filter_index_days(ftimes, kd1);
    let lows1 = crate::dataframe::filter_data_days(ftimes, lows, kd1);
    let highs1 = crate::dataframe::filter_data_days(ftimes, highs, kd1);
    let last_day = spec_day_of(candles.last().time) as i64;
    let pr = crate::dataframe::RowPred::RegularHours {
        last_day,
        start: params.trading_start,
        end: params.trading_end,
    };
    let pe = crate::dataframe::RowPred::ExtendedHours {
        last_day,
        start: params.trading_start,
        end: params.trading_end,
    };
    let mm_r = crate::levels::min_max_levels_s(
        crate::dataframe::filter_index(idx1, pr),
        crate::dataframe::filter_data(idx1, lows1, pr),
        crate::dataframe::filter_data(idx1, highs1, pr),
    );
    let mm_e = crate::levels::min_max_levels_s(
        crate::dataframe::filter_index(idx1, pe),
        crate::dataframe::filter_data(idx1, lows1, pe),
        crate::dataframe::filter_data(idx1, highs1, pe),
    );
    let kd5 = crate::dataframe::retained_days(ftimes, span, 5);
    let mm5 = crate::levels::min_max_levels_s(
        crate::dataframe::filter_index_days(ftimes, kd5),
        crate::dataframe::filter_data_days(ftimes, lows, kd5),
        crate::dataframe::filter_data_days(ftimes, highs, kd5),
    );
    let kd20 = crate::dataframe::retained_days(ftimes, span, 20);
    let mm20 = crate::levels::min_max_levels_s(
        crate::dataframe::filter_index_days(ftimes, kd20),
        crate::dataframe::filter_data_days(ftimes, lows, kd20),
        crate::dataframe::filter_data_days(ftimes, highs, kd20),
    );
    let th = crate::support_resistance::spec_threshold(
        candles.last().close,
        params.sr_threshold_permyriad,
    );
    crate::levels::dedupe_spec(mm_r + mm_e + mm5 + mm20, th)
}

pub open spec fn discovered_levels(c: Controller) -> Seq<PriceLevel> {
    discovered_from(c.candles@, c.params)
}

impl Controller {
    /// Recompute the price levels when due: aggregate the log into
    /// half-hour buckets, collect the extremes of the one-, five- and
    /// twenty-working-day windows (the one-day window split into regular
    /// and overnight hours), and cluster away near-duplicates.
    #[verifier::rlimit(100)]
    pub fn update_price_levels(&mut self)
        requires
            ctrl_wf(*old(self)),
        ensures
            ctrl_wf(*final(self)),
            final(self).candles == old(self).candles,
            final(self).charts == old(self).charts,
            final(self).symbol == old(self).symbol,
            final(self).params == old(self).params,
            final(self).tick == old(self).tick,
            final(self).tick_published == old(self).tick_published,
            final(self).tick_publish_delay_ms == old(self).tick_publish_delay_ms,
            final(self).price_levels_overridden == old(self).price_levels_overridden,
            final(self).rejection == old(self).rejection,
            final(self).rejection_msg == old(self).rejection_msg,
            !upl_gate(*old(self)) ==> final(self).price_levels == old(self).price_levels,
            upl_gate(*old(self)) ==> final(self).price_levels@ == discovered_levels(*old(self)),
    {
        let ghost c0 = *self;
        if self.candles.len() == 0 {
            return;
        }
        let last = self.candles[self.candles.len() - 1];
        let tod = (last.time + last.duration) % DAY_SECS;
        let window = self.params.trading_start - 1800 <= tod && tod < self.params.trading_start;
        if !(self.price_levels.len() == 0 || window) {
            return;
        }
        proof {
            lemma_agg_log_wf(c0.candles@, 1800);
        }
        let agg30 = aggregate(&self.candles, 1800);
        let ghost gagg = agg30@;
        let df = crate::dataframe::DataFrame::from_candles(&agg30);
        proof {
            assert(df.index@ =~= crate::chart::times_of(gagg));
            assert(df.cols@[1].data@ =~= crate::chart::low_cells(gagg));
            assert(df.cols@[2].data@ =~= crate::chart::high_cells(gagg));
            assert(crate::dataframe::df_times_nonneg(df));
            assert(crate::dataframe::df_sorted(df));
        }
        let ghost ftimes = crate::chart::times_of(gagg);
        let ghost glows = crate::chart::low_cells(gagg);
        let ghost ghighs = crate::chart::high_cells(gagg);
        proof {
            assert(forall|k: int|
                0 <= k < glows.len() ==> (#[trigger] glows[k]) is Some && price_ok(
                    glows[k].unwrap(),
                ));
            assert(forall|k: int|
                0 <= k < ghighs.len() ==> (#[trigger] ghighs[k]) is Some && price_ok(
                    ghighs[k].unwrap(),
                ));
        }
        let d1 = df.trim_working_days(1, self.params.min_span);
        let last_day = last.time / DAY_SECS;
        let pr = crate::dataframe::RowPred::RegularHours {
            last_day,
            start: self.params.trading_start,
            end: self.params.trading_end,
        };
        let pe = crate::dataframe::RowPred::ExtendedHours {
            last_day,
            start: self.params.trading_start,
            end: self.params.trading_end,
        };
        proof {
            let kd1 = crate::dataframe::retained_days(ftimes, c0.params.min_span as int, 1);
            crate::dataframe::lemma_filter_data_some_days(ftimes, glows, kd1);
            crate::dataframe::lemma_filter_data_some_days(ftimes, ghighs, kd1);
        }
        let regular = d1.filtered(pr);
        let extended = d1.filtered(pe);
        proof {
            crate::dataframe::lemma_filter_data_some(d1.index@, d1.cols@[1].data@, pr);
            crate::dataframe::lemma_filter_data_some(d1.index@, d1.cols@[2].data@, pr);
            crate::dataframe::lemma_filter_data_some(d1.index@, d1.cols@[1].data@, pe);
            crate::dataframe::lemma_filter_data_some(d1.index@, d1.cols@[2].data@, pe);
        }
        let d5 = df.trim_working_days(5, self.params.min_span);
        let d20 = df.trim_working_days(20, self.params.min_span);
        proof {
            let kd5 = crate::dataframe::retained_days(ftimes, c0.params.min_span as int, 5);
            let kd20 = crate::dataframe::retained_days(ftimes, c0.params.min_span as int, 20);
            crate::dataframe::lemma_filter_data_some_days(ftimes, glows, kd5);
            crate::dataframe::lemma_filter_data_some_days(ftimes, ghighs, kd5);
            crate::dataframe::lemma_filter_data_some_days(ftimes, glows, kd20);
            crate::dataframe::lemma_filter_data_some_days(ftimes, ghighs, kd20);
        }
        let mut lvs: Vec<PriceLevel> = Vec::new();
        crate::levels::find_min_max(&mut lvs, &regular);
        crate::levels::find_min_max(&mut lvs, &extended);
        crate::levels::find_min_max(&mut lvs, &d5);
        crate::levels::find_min_max(&mut lvs, &d20);
        proof {
            if regular.index@.len() > 0 {
                crate::levels::lemma_min_low_scan_range(regular.cols@[1].data@, 1, 0);
                crate::levels::lemma_max_high_scan_range(regular.cols@[2].data@, 1, 0);
            }
            if extended.index@.len() > 0 {
                crate::levels::lemma_min_low_scan_range(extended.cols@[1].data@, 1, 0);
                crate::levels::lemma_max_high_scan_range(extended.cols@[2].data@, 1, 0);
            }
            if d5.index@.len() > 0 {
                crate::levels::lemma_min_low_scan_range(d5.cols@[1].data@, 1, 0);
                crate::levels::lemma_max_high_scan_range(d5.cols@[2].data@, 1, 0);
            }
            if d20.index@.len() > 0 {
                crate::levels::lemma_min_low_scan_range(d20.cols@[1].data@, 1, 0);
                crate::levels::lemma_max_high_scan_range(d20.cols@[2].data@, 1, 0);
            }
        }
        let th = crate::support_resistance::threshold(
            last.close,
            self.params.sr_threshold_permyriad,
        );
        let deduped = crate::levels::dedupe_price_levels(lvs, th);
        self.price_levels = deduped;
        proof {
            assert(upl_gate(c0));
            assert(self.price_levels@ == discovered_levels(c0));
        }
    }
}

/// Whether a level can act as support (bullish: at or below the close)
/// or resistance (bearish: at or above it).
pub open spec fn level_qualifies(lv: PriceLevel, close: i64, bullish: bool) -> bool {
    if bullish {
        lv.price <= close
    } else {
        lv.price >= close
    }
}

/// The scan for the qualifying level closest to the close; ties keep the
/// earliest level.
pub open spec fn sel_scan(
    levels: Seq<PriceLevel>,
    close: i64,
    bullish: bool,
    i: int,
    best: Option<int>,
) -> Option<int>
    decreases levels.len() - i,
{
    if i < 0 || i >= levels.len() {
        best
    } else {
        let better = level_qualifies(levels[i], close, bullish) && (best is None || abs_i64(
            close - levels[i].price,
        ) < abs_i64(close - levels[best.unwrap()].price));
        sel_scan(
            levels,
            close,
            bullish,
            i + 1,
            if better {
                Some(i)
            } else {
                best
            },
        )
    }
}

pub open spec fn select_level_idx(levels: Seq<PriceLevel>, close: i64, bullish: bool) -> Option<
    int,
> {
    sel_scan(levels, close, bullish, 0, None)
}

/// Whether the detection pass runs at all: a candle exists and its end
/// instant falls within regular trading hours.
pub open spec fn sr_gate_from(candles: Seq<Candle>, params: TradeParams) -> bool {
    &&& candles.len() > 0
    &&& spec_tod_of((candles.last().time + candles.last().duration) as i64) >= params.trading_start
    &&& spec_tod_of((candles.last().time + candles.last().duration) as i64) <= params.trading_end
}

pub open spec fn sr_gate(c: Controller) -> bool {
    sr_gate_from(c.candles@, c.params)
}

/// The five-minute aggregation the detection pass works on.
pub open spec fn sr_candles(c: Controller) -> Seq<Candle> {
    agg_spec(c.candles@, 300)
}

/// The rejection the pass finds on the given log, levels and reference
/// range, if every stage holds: a strict trend, a five-minute candle, a
/// qualifying level, a reference range, and the pattern check at that
/// level.
pub open spec fn sr_rejection_from(
    candles: Seq<Candle>,
    levels: Seq<PriceLevel>,
    atr0: Option<i64>,
    params: TradeParams,
    trend: Trend,
) -> Option<PriceRejection> {
    let s5 = agg_spec(candles, 300);
    if !(sr_gate_from(candles, params) && (trend == Trend::Bullish || trend == Trend::Bearish)
        && s5.len() > 0) {
        None
    } else {
        match select_level_idx(levels, s5.last().close, trend == Trend::Bullish) {
            Option::None => None,
            Option::Some(li) => {
                if atr0 is None {
                    None
                } else {
                    let atr = atr0.unwrap();
                    let price = levels[li].price;
                    if trend == Trend::Bullish {
                        match check_support_spec(s5, price, atr, params.sr_threshold_permyriad) {
                            Option::None => None,
                            Option::Some((hi, lo, imm)) => Some(
                                support_rejection(s5, price, hi, lo, imm),
                            ),
                        }
                    } else {
                        check_resistance_spec(s5, price, atr, params.sr_threshold_permyriad)
                    }
                }
            },
        }
    }
}

pub open spec fn sr_rejection(c: Controller, trend: Trend) -> Option<PriceRejection> {
    sr_rejection_from(
        c.candles@,
        c.price_levels@,
        if c.charts@.len() == 0 {
            None
        } else {
            c.charts@[0].atr
        },
        c.params,
        trend,
    )
}

/// The anchor points of a rejection message: the approach extreme, the
/// pivot extreme and the current close.
pub open spec fn chart_points_spec(rej: PriceRejection, ts: i64) -> Seq<(i64, i64)> {
    let bullish = rej.trend == Trend::Bullish;
    seq![
        (
            rej.arriving_from.time,
            if bullish {
                rej.arriving_from.high
            } else {
                rej.arriving_from.low
            },
        ),
        (
            rej.rejected_at.time,
            if bullish {
                rej.rejected_at.low
            } else {
                rej.rejected_at.high
            },
        ),
        (ts, rej.now.close),
    ]
}

impl Controller {
    /// One support/resistance detection pass under the supplied trend.
    ///
    /// Every level is deactivated, then — inside trading hours, under a
    /// strict trend — the qualifying level closest to the five-minute
    /// close is activated and the rejection pattern is checked at it.
    /// `ended` is set at the start of every pass and cleared only on a
    /// positive detection; the message keeps its discovery instant while
    /// the same pivot stays rejected.
    #[verifier::rlimit(60)]
    pub fn find_support_resistance(&mut self, trend: Trend)
        requires
            ctrl_wf(*old(self)),
        ensures
            ctrl_wf(*final(self)),
            final(self).candles == old(self).candles,
            final(self).charts == old(self).charts,
            final(self).symbol == old(self).symbol,
            final(self).params == old(self).params,
            final(self).tick == old(self).tick,
            final(self).tick_published == old(self).tick_published,
            final(self).tick_publish_delay_ms == old(self).tick_publish_delay_ms,
            final(self).price_levels_overridden == old(self).price_levels_overridden,
            final(self).price_levels@.len() == old(self).price_levels@.len(),
            forall|i: int|
                0 <= i < old(self).price_levels@.len() ==> (#[trigger] final(self).price_levels@[i]).price == old(self).price_levels@[i].price && final(self).price_levels@[i].at == old(self).price_levels@[i].at,
            final(self).rejection == sr_rejection(*old(self), trend),
            forall|i: int|
                0 <= i < final(self).price_levels@.len() ==> (#[trigger] final(self).price_levels@[i]).is_active == (sr_gate(*old(self)) && (trend == Trend::Bullish
                    || trend == Trend::Bearish) && sr_candles(*old(self)).len() > 0
                    && select_level_idx(
                    old(self).price_levels@,
                    sr_candles(*old(self)).last().close,
                    trend == Trend::Bullish,
                ) == Some(i)),
            final(self).rejection_msg.ended == (sr_rejection(*old(self), trend) is None),
            sr_rejection(*old(self), trend) matches Some(rej) ==> ({
                let ts = if old(self).rejection matches Some(p) && p.rejected_at.time
                    == rej.rejected_at.time {
                    old(self).rejection_msg.found_at
                } else {
                    (old(self).candles@.last().time + old(self).candles@.last().duration) as i64
                };
                &&& final(self).rejection_msg.trend == rej.trend
                &&& final(self).rejection_msg.is_imminent == rej.is_imminent
                &&& final(self).rejection_msg.found_at == ts
                &&& final(self).rejection_msg.points@ == chart_points_spec(rej, ts)
            }),
            sr_rejection(*old(self), trend) is None ==> ({
                &&& final(self).rejection_msg.is_imminent == false
                &&& final(self).rejection_msg.found_at == old(self).rejection_msg.found_at
                &&& (old(self).candles@.len() > 0 && spec_day_of(old(self).candles@.last().time)
                    != spec_day_of(old(self).rejection_msg.found_at) ==> final(self).rejection_msg.trend == Trend::Flat && final(self).rejection_msg.points@.len()
                    == 0)
                &&& (!(old(self).candles@.len() > 0 && spec_day_of(
                    old(self).candles@.last().time,
                ) != spec_day_of(old(self).rejection_msg.found_at)) ==> final(self).rejection_msg.trend == old(self).rejection_msg.trend && final(self).rejection_msg.points@ == old(self).rejection_msg.points@)
            }),
    {
        let ghost c0 = *self;
        // Reset pass state.
        let n_levels = self.price_levels.len();
        let mut i: usize = 0;
        while i < n_levels
            invariant
                0 <= i <= n_levels,
                n_levels == self.price_levels@.len(),
                self.candles == c0.candles,
                self.charts == c0.charts,
                self.symbol == c0.symbol,
                self.params == c0.params,
                self.tick == c0.tick,
                self.tick_published == c0.tick_published,
                self.tick_publish_delay_ms == c0.tick_publish_delay_ms,
                self.price_levels_overridden == c0.price_levels_overridden,
                self.rejection == c0.rejection,
                self.rejection_msg == c0.rejection_msg,
                ctrl_wf(c0),
                forall|k: int|
                    0 <= k < n_levels ==> (#[trigger] self.price_levels@[k]).price
                        == c0.price_levels@[k].price && self.price_levels@[k].at
                        == c0.price_levels@[k].at,
                forall|k: int| 0 <= k < i ==> !(#[trigger] self.price_levels@[k]).is_active,
            decreases n_levels - i,
        {
            let lv = self.price_levels[i];
            self.price_levels.set(i, PriceLevel { price: lv.price, is_active: false, at: lv.at });
            i = i + 1;
        }
        self.rejection_msg.is_imminent = false;
        self.rejection_msg.ended = true;
        let prev_rej = self.rejection;
        self.rejection = None;
        proof {
            assert(forall|k: int|
                0 <= k < self.price_levels@.len() ==> (#[trigger] self.price_levels@[k]).price
                    == c0.price_levels@[k].price);
            assert(ctrl_wf(*self));
        }
        if self.candles.len() == 0 {
            proof {
                assert(!sr_gate(c0));
                assert(sr_rejection(c0, trend) is None);
            }
            return;
        }
        let last = self.candles[self.candles.len() - 1];
        if last.time / DAY_SECS != self.rejection_msg.found_at / DAY_SECS {
            proof {
                assert(time_ok(self.rejection_msg.found_at) || true);
            }
            self.rejection_msg.trend = Trend::Flat;
            self.rejection_msg.points = Vec::new();
        }
        let cur_time = last.time + last.duration;
        let tod = cur_time % DAY_SECS;
        if tod < self.params.trading_start || tod > self.params.trading_end {
            proof {
                assert(!sr_gate(c0));
                assert(sr_rejection(c0, trend) is None);
            }
            return;
        }
        proof {
            lemma_agg_log_wf(c0.candles@, 300);
        }
        let candles5 = aggregate(&self.candles, 300);
        if candles5.len() == 0 {
            proof {
                assert(sr_rejection(c0, trend) is None);
            }
            return;
        }
        let last5 = candles5[candles5.len() - 1];
        if matches!(trend, Trend::Flat) {
            proof {
                assert(sr_rejection(c0, trend) is None);
            }
            return;
        }
        let bullish = matches!(trend, Trend::Bullish);
        // Select the qualifying level closest to the five-minute close.
        let mut best: Option<usize> = None;
        let mut k: usize = 0;
        while k < n_levels
            invariant
                0 <= k <= n_levels,
                n_levels == self.price_levels@.len(),
                forall|m: int|
                    0 <= m < n_levels ==> (#[trigger] self.price_levels@[m]).price
                        == c0.price_levels@[m].price,
                ctrl_wf(c0),
                n_levels == c0.price_levels@.len(),
                price_ok(last5.close),
                bullish == (trend == Trend::Bullish),
                best matches Some(b) ==> b < n_levels,
                select_level_idx(c0.price_levels@, last5.close, bullish) == sel_scan(
                    c0.price_levels@,
                    last5.close,
                    bullish,
                    k as int,
                    match best {
                        Option::None => None::<int>,
                        Option::Some(b) => Some(b as int),
                    },
                ),
            decreases n_levels - k,
        {
            let lv = self.price_levels[k];
            proof {
                assert(price_ok(c0.price_levels@[k as int].price));
                if best is Some {
                    assert(price_ok(c0.price_levels@[best.unwrap() as int].price));
                }
            }
            let qual = if bullish {
                lv.price <= last5.close
            } else {
                lv.price >= last5.close
            };
            let dist = if last5.close >= lv.price {
                last5.close - lv.price
            } else {
                lv.price - last5.close
            };
            let better = qual && match best {
                Option::None => true,
                Option::Some(b) => {
                    let bp = self.price_levels[b].price;
                    let bd = if last5.close >= bp {
                        last5.close - bp
                    } else {
                        bp - last5.close
                    };
                    dist < bd
                },
            };
            if better {
                best = Some(k);
            }
            k = k + 1;
        }
        let li = match best {
            Option::Some(b) => b,
            Option::None => {
                proof {
                    assert(sr_rejection(c0, trend) is None);
                }
                return;
            },
        };
        let lv = self.price_levels[li];
        self.price_levels.set(li, PriceLevel { price: lv.price, is_active: true, at: lv.at });
        if self.charts.len() == 0 {
            proof {
                assert(sr_rejection(c0, trend) is None);
            }
            return;
        }
        let atr = match self.charts[0].atr {
            Option::Some(a) => a,
            Option::None => {
                proof {
                    assert(sr_rejection(c0, trend) is None);
                }
                return;
            },
        };
        let found = if bullish {
            check_support(&candles5, lv.price, atr, self.params.sr_threshold_permyriad)
        } else {
            check_resistance(&candles5, lv.price, atr, self.params.sr_threshold_permyriad)
        };
        let rej = match found {
            Option::Some(r) => r,
            Option::None => {
                proof {
                    assert(sr_rejection(c0, trend) is None);
                }
                return;
            },
        };
        proof {
            assert(sr_rejection(c0, trend) == Some(rej));
        }
        let timestamp = match prev_rej {
            Option::Some(p) => {
                if p.rejected_at.time == rej.rejected_at.time {
                    self.rejection_msg.found_at
                } else {
                    cur_time
                }
            },
            Option::None => cur_time,
        };
        let mut points: Vec<(i64, i64)> = Vec::new();
        points.push(
            (
                rej.arriving_from.time,
                if bullish {
                    rej.arriving_from.high
                } else {
                    rej.arriving_from.low
                },
            ),
        );
        points.push(
            (
                rej.rejected_at.time,
                if bullish {
                    rej.rejected_at.low
                } else {
                    rej.rejected_at.high
                },
            ),
        );
        points.push((timestamp, rej.now.close));
        proof {
            assert(rej.trend == if bullish {
                Trend::Bullish
            } else {
                Trend::Bearish
            });
            assert(points@ =~= chart_points_spec(rej, timestamp));
        }
        self.rejection_msg = RejectionMessage {
            trend: rej.trend,
            is_imminent: rej.is_imminent,
            found_at: timestamp,
            ended: false,
            points,
        };
        self.rejection = Some(rej);
    }
}

} // verus!
