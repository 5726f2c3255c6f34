//! One chart per symbol and timeframe: the working aggregation of the raw
//! log, the data frame with its indicator columns, the volume-weighted
//! average price, and the running divergence list.
//!
//! Indicator series (EMA and the oscillator the configuration selects)
//! are numeric-library primitives the caller computes over the chart's
//! aggregation and hands in; they are padded or cut to the aggregation
//! length, gaps marking warm-up.

use vstd::prelude::*;

use crate::aggregate::{agg_spec, aggregate, lemma_agg_log_wf, log_wf, vol_sum};
use crate::candle::Candle;
use crate::dataframe::{
    df_wf, filter_data_days, filter_index_days, find_col, retained_days, spec_day_of, DataFrame,
};
use crate::divergence::{find_divergence, find_divergence_spec, Divergence};
use crate::trend::Trend;

verus! {

/// Which oscillator feeds the divergence detector.
#[derive(Clone, Copy, Debug, PartialEq, Eq, Structural)]
pub enum DivIndicator {
    Rsi,
    Stochastic,
}

/// The per-chart configuration.
#[derive(Clone, Copy, Debug, PartialEq, Eq, Structural)]
pub struct ChartConfig {
    pub timeframe_secs: i64,
    pub days: usize,
    pub ema: u32,
    pub use_divergence: bool,
    pub div_indicator: DivIndicator,
    pub use_vwap: bool,
}

pub open spec fn config_wf(cf: ChartConfig) -> bool {
    &&& 0 < cf.timeframe_secs <= 4_000_000_000
    &&& cf.days >= 1
}

/// The chart state.
pub struct Chart {
    pub config: ChartConfig,
    pub aggregated: Vec<Candle>,
    pub dataframe: DataFrame,
    pub divergences: Vec<Divergence>,
    pub messages: Vec<crate::volume::VolumeMessage>,
    pub atr: Option<i64>,
}

/// The instants of an aggregated sequence.
pub open spec fn times_of(s: Seq<Candle>) -> Seq<i64> {
    s.map_values(|c: Candle| c.time)
}

/// A series fitted to a length: cut from the front end when too long,
/// padded with gaps at the front when too short.
pub open spec fn fit_spec(v: Seq<Option<i64>>, n: int) -> Seq<Option<i64>> {
    if v.len() >= n {
        v.take(n)
    } else {
        Seq::new((n - v.len()) as nat, |i: int| Option::<i64>::None) + v
    }
}

/// Fit a series to a length, as `fit_spec` says.
pub fn fit_series(values: Vec<Option<i64>>, n: usize) -> (r: Vec<Option<i64>>)
    ensures
        r@ == fit_spec(values@, n as int),
        r@.len() == n,
{
    let mut r: Vec<Option<i64>> = Vec::new();
    if values.len() >= n {
        let mut i: usize = 0;
        while i < n
            invariant
                0 <= i <= n,
                n <= values@.len(),
                r@.len() == i,
                forall|k: int| 0 <= k < i ==> r@[k] == values@[k],
            decreases n - i,
        {
            r.push(values[i]);
            i = i + 1;
        }
        proof {
            assert(r@ =~= values@.take(n as int));
        }
    } else {
        let pad = n - values.len();
        let mut i: usize = 0;
        while i < pad
            invariant
                0 <= i <= pad,
                pad == n - values@.len(),
                r@.len() == i,
                forall|k: int| 0 <= k < i ==> r@[k] is None,
            decreases pad - i,
        {
            r.push(None);
            i = i + 1;
        }
        let mut j: usize = 0;
        while j < values.len()
            invariant
                0 <= j <= values@.len(),
                pad == n - values@.len(),
                r@.len() == pad + j,
                forall|k: int| 0 <= k < pad ==> r@[k] is None,
                forall|k: int| 0 <= k < j ==> r@[pad + k] == values@[k],
            decreases values@.len() - j,
        {
            r.push(values[j]);
            j = j + 1;
        }
        proof {
            assert(r@ =~= Seq::new((n - values@.len()) as nat, |i: int| Option::<i64>::None)
                + values@);
        }
    }
    r
}

/// The first row of the calendar day the row at `i` belongs to.
pub open spec fn day_start(times: Seq<i64>, i: int) -> int
    decreases i,
{
    if i <= 0 {
        0
    } else if spec_day_of(times[i]) == spec_day_of(times[i - 1]) {
        day_start(times, i - 1)
    } else {
        i
    }
}

/// Close-times-volume sum over the closed index range.
pub open spec fn pv_sum(s: Seq<Candle>, a: int, b: int) -> int
    decreases b - a + 1,
{
    if a > b {
        0
    } else {
        pv_sum(s, a, b - 1) + s[b].close * s[b].volume
    }
}

/// Volume sum over the closed index range.
pub open spec fn v_sum(s: Seq<Candle>, a: int, b: int) -> int
    decreases b - a + 1,
{
    if a > b {
        0
    } else {
        v_sum(s, a, b - 1) + s[b].volume
    }
}

/// The volume-weighted average price at each row: cumulative
/// close-times-volume over cumulative volume, both restarted at every
/// calendar date boundary; a gap where the day's volume so far is zero.
pub open spec fn vwap_spec(s: Seq<Candle>) -> Seq<Option<i64>> {
    Seq::new(
        s.len(),
        |i: int|
            if v_sum(s, day_start(times_of(s), i), i) > 0 {
                Some(
                    (pv_sum(s, day_start(times_of(s), i), i) / v_sum(
                        s,
                        day_start(times_of(s), i),
                        i,
                    )) as i64,
                )
            } else {
                None
            },
    )
}

/// Range volume is non-negative and bounded by the whole log's volume.
pub proof fn lemma_v_sum_bounds(s: Seq<Candle>, a: int, b: int)
    requires
        0 <= a,
        b < s.len(),
    ensures
        0 <= v_sum(s, a, b),
        v_sum(s, a, b) <= vol_sum(s),
    decreases b - a + 1,
{
    if a > b {
        crate::aggregate::lemma_vol_sum_nonneg(s);
    } else {
        lemma_v_sum_bounds(s, a, b - 1);
        assert(v_sum(s, a, b) == vol_sum(s.subrange(a, b + 1))) by {
            lemma_v_sum_is_subrange(s, a, b);
        }
        crate::aggregate::lemma_vol_sum_subrange_le(s, a, b + 1);
    }
}

/// Range volume is the volume of the corresponding slice.
proof fn lemma_v_sum_is_subrange(s: Seq<Candle>, a: int, b: int)
    requires
        0 <= a,
        a <= b + 1,
        b < s.len(),
    ensures
        v_sum(s, a, b) == vol_sum(s.subrange(a, b + 1)),
    decreases b - a + 1,
{
    if a > b {
        assert(s.subrange(a, b + 1) =~= Seq::<Candle>::empty());
    } else {
        lemma_v_sum_is_subrange(s, a, b - 1);
        assert(s.subrange(a, b + 1).drop_last() =~= s.subrange(a, b));
        assert(s.subrange(a, b + 1).last() == s[b]);
    }
}

/// The weighted sum is bounded by the price bound times the range volume.
proof fn lemma_pv_sum_bounds(s: Seq<Candle>, a: int, b: int)
    requires
        0 <= a,
        b < s.len(),
        crate::aggregate::candles_in_range(s),
    ensures
        -1_000_000_000_000 * v_sum(s, a, b) <= pv_sum(s, a, b),
        pv_sum(s, a, b) <= 1_000_000_000_000 * v_sum(s, a, b),
    decreases b - a + 1,
{
    if a <= b {
        lemma_pv_sum_bounds(s, a, b - 1);
        lemma_v_sum_bounds(s, a, b - 1);
        let c = s[b].close as int;
        let v = s[b].volume as int;
        assert(c * v <= 1_000_000_000_000 * v) by (nonlinear_arith)
            requires
                c <= 1_000_000_000_000,
                v >= 0,
        ;
        assert(-1_000_000_000_000 * v <= c * v) by (nonlinear_arith)
            requires
                c >= -1_000_000_000_000,
                v >= 0,
        ;
        assert(1_000_000_000_000 * v_sum(s, a, b) == 1_000_000_000_000 * v_sum(s, a, b - 1)
            + 1_000_000_000_000 * v) by (nonlinear_arith)
            requires
                v_sum(s, a, b) == v_sum(s, a, b - 1) + v,
        ;
        assert(-1_000_000_000_000 * v_sum(s, a, b) == -1_000_000_000_000 * v_sum(s, a, b - 1)
            + -1_000_000_000_000 * v) by (nonlinear_arith)
            requires
                v_sum(s, a, b) == v_sum(s, a, b - 1) + v,
        ;
    }
}

/// A magnitude bound survives flooring division by a positive divisor.
pub proof fn lemma_div_bound(n: int, d: int, bound: int)
    requires
        d > 0,
        bound >= 0,
        -bound * d <= n <= bound * d,
    ensures
        -bound <= n / d <= bound,
{
    vstd::arithmetic::div_mod::lemma_div_is_ordered(n, bound * d, d);
    vstd::arithmetic::div_mod::lemma_div_is_ordered(-bound * d, n, d);
    vstd::arithmetic::mul::lemma_mul_is_commutative(bound, d);
    vstd::arithmetic::div_mod::lemma_div_multiples_vanish(bound, d);
    vstd::arithmetic::mul::lemma_mul_is_commutative(-bound, d);
    vstd::arithmetic::div_mod::lemma_div_multiples_vanish(-bound, d);
    assert(-bound * d == d * -bound) by (nonlinear_arith);
}

/// Floor-divide by a positive divisor.
fn div_floor_i128(n: i128, d: i128) -> (r: i128)
    requires
        d > 0,
        -0x40000000000000000000000000000000 < n < 0x40000000000000000000000000000000,
        d < 0x40000000000000000000000000000000,
    ensures
        r == n as int / d as int,
{
    if n >= 0 {
        n / d
    } else {
        let neg = -n;
        let up = (neg + d - 1) / d;
        proof {
            let nn = neg as int;
            let dd = d as int;
            vstd::arithmetic::div_mod::lemma_fundamental_div_mod(nn, dd);
            vstd::arithmetic::div_mod::lemma_mod_bound(nn, dd);
            let q = nn / dd;
            let rr = nn % dd;
            assert(nn == q * dd + rr) by {
                vstd::arithmetic::mul::lemma_mul_is_commutative(q, dd);
            }
            vstd::arithmetic::div_mod::lemma_div_is_ordered(0, nn, dd);
            assert((-q) * dd == -(q * dd)) by (nonlinear_arith);
            assert((q + 1) * dd == q * dd + dd) by (nonlinear_arith);
            assert((-q - 1) * dd == -(q * dd) - dd) by (nonlinear_arith);
            if rr == 0 {
                vstd::arithmetic::div_mod::lemma_fundamental_div_mod_converse(
                    nn + dd - 1,
                    dd,
                    q,
                    dd - 1,
                );
                vstd::arithmetic::div_mod::lemma_fundamental_div_mod_converse(-nn, dd, -q, 0);
            } else {
                vstd::arithmetic::div_mod::lemma_fundamental_div_mod_converse(
                    nn + dd - 1,
                    dd,
                    q + 1,
                    rr - 1,
                );
                vstd::arithmetic::div_mod::lemma_fundamental_div_mod_converse(
                    -nn,
                    dd,
                    -q - 1,
                    dd - rr,
                );
            }
        }
        -up
    }
}

/// Compute the volume-weighted average price column of an aggregated
/// candle sequence, exactly as `vwap_spec` says.
pub fn compute_vwap(s: &Vec<Candle>) -> (r: Vec<Option<i64>>)
    requires
        crate::aggregate::candles_in_range(s@),
        vol_sum(s@) <= i64::MAX,
    ensures
        r@ == vwap_spec(s@),
        r@.len() == s@.len(),
{
    let len = s.len();
    let ghost times = times_of(s@);
    let mut r: Vec<Option<i64>> = Vec::new();
    let mut cum_pv: i128 = 0;
    let mut cum_v: i128 = 0;
    let ghost mut ds: int = 0;
    let mut i: usize = 0;
    while i < len
        invariant
            0 <= i <= len,
            len == s@.len(),
            times == times_of(s@),
            crate::aggregate::candles_in_range(s@),
            vol_sum(s@) <= i64::MAX,
            r@.len() == i,
            i > 0 ==> ds == day_start(times, i - 1),
            i > 0 ==> 0 <= ds <= i - 1,
            i > 0 ==> cum_pv == pv_sum(s@, ds, i - 1),
            i > 0 ==> cum_v == v_sum(s@, ds, i - 1),
            i == 0 ==> cum_pv == 0 && cum_v == 0,
            forall|k: int| 0 <= k < i ==> r@[k] == vwap_spec(s@)[k],
        decreases len - i,
    {
        let c = s[i];
        proof {
            assert(times[i as int] == s@[i as int].time);
            if i > 0 {
                assert(times[i - 1] == s@[i - 1].time);
            }
        }
        let new_day = if i == 0 {
            true
        } else {
            c.time / crate::dataframe::DAY_SECS != s[i - 1].time / crate::dataframe::DAY_SECS
        };
        if new_day {
            cum_pv = 0;
            cum_v = 0;
            proof {
                ds = i as int;
            }
        }
        proof {
            assert(ds == day_start(times, i as int));
            lemma_v_sum_bounds(s@, ds, i - 1);
            lemma_v_sum_bounds(s@, ds, i as int);
            lemma_pv_sum_bounds(s@, ds, i - 1);
            lemma_pv_sum_bounds(s@, ds, i as int);
        }
        cum_pv = cum_pv + (c.close as i128) * (c.volume as i128);
        cum_v = cum_v + (c.volume as i128);
        let cell = if cum_v > 0 {
            proof {
                lemma_div_bound(cum_pv as int, cum_v as int, 1_000_000_000_000);
            }
            Some(div_floor_i128(cum_pv, cum_v) as i64)
        } else {
            None
        };
        r.push(cell);
        proof {
            assert(r@[i as int] == vwap_spec(s@)[i as int]);
        }
        i = i + 1;
    }
    proof {
        assert(r@ =~= vwap_spec(s@));
    }
    r
}

pub open spec fn open_cells(s: Seq<Candle>) -> Seq<Option<i64>> {
    s.map_values(|c: Candle| Some(c.open))
}

pub open spec fn low_cells(s: Seq<Candle>) -> Seq<Option<i64>> {
    s.map_values(|c: Candle| Some(c.low))
}

pub open spec fn high_cells(s: Seq<Candle>) -> Seq<Option<i64>> {
    s.map_values(|c: Candle| Some(c.high))
}

pub open spec fn close_cells(s: Seq<Candle>) -> Seq<Option<i64>> {
    s.map_values(|c: Candle| Some(c.close))
}

pub open spec fn volume_cells(s: Seq<Candle>) -> Seq<Option<i64>> {
    s.map_values(|c: Candle| Some(c.volume as i64))
}

/// The layout of a freshly rebuilt chart frame: the five price columns,
/// the fitted moving-average and oscillator columns, and the
/// volume-weighted column when configured, every one trimmed by the same
/// working-day cut.
pub open spec fn chart_frame_ok(
    df: DataFrame,
    agg: Seq<Candle>,
    ema: Seq<Option<i64>>,
    osc: Seq<Option<i64>>,
    days: int,
    min_span: int,
    use_vwap: bool,
) -> bool {
    let ftimes = times_of(agg);
    let kd = retained_days(ftimes, min_span, days);
    let n = agg.len() as int;
    &&& df_wf(df)
    &&& df.index@ == filter_index_days(ftimes, kd)
    &&& df.cols@.len() == if use_vwap {
        8int
    } else {
        7int
    }
    &&& df.cols@[0].name@ == "open"@ && df.cols@[0].data@ == filter_data_days(ftimes, open_cells(agg), kd)
    &&& df.cols@[1].name@ == "low"@ && df.cols@[1].data@ == filter_data_days(ftimes, low_cells(agg), kd)
    &&& df.cols@[2].name@ == "high"@ && df.cols@[2].data@ == filter_data_days(
        ftimes,
        high_cells(agg),
        kd,
    )
    &&& df.cols@[3].name@ == "close"@ && df.cols@[3].data@ == filter_data_days(
        ftimes,
        close_cells(agg),
        kd,
    )
    &&& df.cols@[4].name@ == "volume"@ && df.cols@[4].data@ == filter_data_days(
        ftimes,
        volume_cells(agg),
        kd,
    )
    &&& df.cols@[5].name@ == "ma"@ && df.cols@[5].data@ == filter_data_days(
        ftimes,
        fit_spec(ema, n),
        kd,
    )
    &&& df.cols@[6].name@ == "rsi"@ && df.cols@[6].data@ == filter_data_days(
        ftimes,
        fit_spec(osc, n),
        kd,
    )
    &&& use_vwap ==> df.cols@[7].name@ == "vwap"@ && df.cols@[7].data@ == filter_data_days(
        ftimes,
        vwap_spec(agg),
        kd,
    )
}

impl Chart {
    /// A fresh chart: the log aggregated to the configured timeframe and
    /// its bare price frame, with no divergences and no reference range
    /// yet.
    pub fn new(candles: &Vec<Candle>, config: ChartConfig) -> (r: Chart)
        requires
            log_wf(candles@),
            config_wf(config),
        ensures
            r.config == config,
            r.aggregated@ == agg_spec(candles@, config.timeframe_secs as int),
            df_wf(r.dataframe),
            r.divergences@.len() == 0,
            r.messages@.len() == 0,
            r.atr is None,
    {
        proof {
            lemma_agg_log_wf(candles@, config.timeframe_secs as int);
        }
        let aggregated = aggregate(candles, config.timeframe_secs);
        let dataframe = DataFrame::from_candles(&aggregated);
        Chart {
            config,
            aggregated,
            dataframe,
            divergences: Vec::new(),
            messages: Vec::new(),
            atr: None,
        }
    }

    /// Rebuild the chart's data from the raw log: aggregate to the
    /// configured timeframe, build the price frame, attach the supplied
    /// indicator series (fitted to the aggregation length), compute the
    /// volume-weighted column when configured, and trim to the last
    /// configured working days. The divergence list is untouched; the
    /// supplied reference range is stored.
    #[verifier::rlimit(60)]
    pub fn update_data(
        &mut self,
        candles: &Vec<Candle>,
        ema: Vec<Option<i64>>,
        osc: Vec<Option<i64>>,
        atr: Option<i64>,
        min_span: i64,
    )
        requires
            log_wf(candles@),
            config_wf(old(self).config),
            min_span >= 0,
        ensures
            final(self).config == old(self).config,
            final(self).divergences@ == old(self).divergences@,
            final(self).messages == old(self).messages,
            final(self).atr == atr,
            final(self).aggregated@ == agg_spec(candles@, old(self).config.timeframe_secs as int),
            chart_frame_ok(
                final(self).dataframe,
                agg_spec(candles@, old(self).config.timeframe_secs as int),
                ema@,
                osc@,
                old(self).config.days as int,
                min_span as int,
                old(self).config.use_vwap,
            ),
    {
        let ghost tf = self.config.timeframe_secs as int;
        proof {
            lemma_agg_log_wf(candles@, tf);
        }
        let aggregated = aggregate(candles, self.config.timeframe_secs);
        let ghost agg = aggregated@;
        let mut df = DataFrame::from_candles(&aggregated);
        proof {
            assert(df.index@ =~= times_of(agg));
            assert(df.cols@[0].data@ =~= open_cells(agg));
            assert(df.cols@[1].data@ =~= low_cells(agg));
            assert(df.cols@[2].data@ =~= high_cells(agg));
            assert(df.cols@[3].data@ =~= close_cells(agg));
            assert(df.cols@[4].data@ =~= volume_cells(agg));
            reveal_strlit("open");
            reveal_strlit("low");
            reveal_strlit("high");
            reveal_strlit("close");
            reveal_strlit("volume");
            reveal_strlit("ma");
            reveal_strlit("rsi");
            reveal_strlit("vwap");
            assert("open"@.len() == 4);
            assert("low"@.len() == 3);
            assert("high"@.len() == 4);
            assert("close"@.len() == 5);
            assert("volume"@.len() == 6);
            assert("ma"@.len() == 2);
            assert("rsi"@.len() == 3);
            assert("vwap"@.len() == 4);
            assert("open"@[0] == 'o');
            assert("high"@[0] == 'h');
            assert("vwap"@[0] == 'v');
            assert("low"@[0] == 'l');
            assert("rsi"@[0] == 'r');
        }
        let n = aggregated.len();
        let ema_fit = fit_series(ema, n);
        proof {
            assert(find_col(df.cols@, "ma"@) is None) by {
                lemma_find_col_absent(df.cols@, "ma"@);
            }
        }
        let ma_fits = df.insert_column(String::from_str("ma"), ema_fit);
        proof {
            assert(find_col(df.cols@, "rsi"@) is None) by {
                lemma_find_col_absent(df.cols@, "rsi"@);
            }
        }
        let osc_fit = fit_series(osc, n);
        let osc_fits = df.insert_column(String::from_str("rsi"), osc_fit);
        if self.config.use_vwap {
            proof {
                assert(find_col(df.cols@, "vwap"@) is None) by {
                    lemma_find_col_absent(df.cols@, "vwap"@);
                }
            }
            let vwap = compute_vwap(&aggregated);
            let vwap_fits = df.insert_column(String::from_str("vwap"), vwap);
        }
        proof {
            assert(crate::dataframe::df_times_nonneg(df));
            assert(crate::dataframe::df_sorted(df));
        }
        let trimmed = df.trim_working_days(self.config.days, min_span);
        self.aggregated = aggregated;
        self.dataframe = trimmed;
        self.atr = atr;
    }
}

/// The values of a gap-free column.
pub open spec fn unwrap_cells(s: Seq<Option<i64>>) -> Seq<i64> {
    s.map_values(|o: Option<i64>| o.unwrap())
}

/// The frame shape the detector needs: the standard column layout with
/// strictly increasing in-range instants, gap-free in-range price
/// columns, and an in-range oscillator column.
pub open spec fn df_divergence_ready(df: DataFrame) -> bool {
    &&& df_wf(df)
    &&& forall|i: int, j: int| 0 <= i < j < df.index@.len() ==> df.index@[i] < df.index@[j]
    &&& forall|i: int| 0 <= i < df.index@.len() ==> crate::candle::time_ok(#[trigger] df.index@[i])
    &&& df.cols@.len() >= 7
    &&& forall|k: int|
        0 <= k < df.index@.len() ==> (#[trigger] df.cols@[1].data@[k]) is Some
            && crate::candle::price_ok(df.cols@[1].data@[k].unwrap())
    &&& forall|k: int|
        0 <= k < df.index@.len() ==> (#[trigger] df.cols@[2].data@[k]) is Some
            && crate::candle::price_ok(df.cols@[2].data@[k].unwrap())
    &&& forall|k: int|
        0 <= k < df.index@.len() ==> ((#[trigger] df.cols@[6].data@[k]) matches Some(v)
            ==> crate::candle::price_ok(v))
}

/// What the detector finds on the chart's frame: the highs against a
/// bearish trend, the lows against a bullish one, the oscillator column
/// in either case.
pub open spec fn div_found_spec(df: DataFrame, trend: Trend) -> Option<Divergence> {
    let times = df.index@;
    let peaks = trend == Trend::Bearish;
    let prices = unwrap_cells(
        if peaks {
            df.cols@[2].data@
        } else {
            df.cols@[1].data@
        },
    );
    let ind = df.cols@[6].data@;
    match find_divergence_spec(trend, times, prices, ind) {
        Option::None => None,
        Option::Some(i) => Some(
            Divergence {
                trend,
                start: times[i],
                start_price: prices[i],
                start_indicator: ind[i].unwrap(),
                end: times[times.len() - 1],
                end_price: prices[times.len() - 1],
                end_indicator: ind[times.len() - 1].unwrap(),
            },
        ),
    }
}

/// Drop recent divergences until the list is compatible with inserting
/// one that starts at `start`.
pub open spec fn drop_overlapping(divs: Seq<Divergence>, start: i64) -> Seq<Divergence>
    decreases divs.len(),
{
    if divs.len() > 0 && divs.last().end > start {
        drop_overlapping(divs.drop_last(), start)
    } else {
        divs
    }
}

/// The divergence-list reconciliation rule: a new divergence evicts the
/// recent ones it overlaps and is appended; with none found, a previous
/// divergence ending exactly at the current last row is a stale edge and
/// is dropped.
pub open spec fn reconcile(
    divs: Seq<Divergence>,
    found: Option<Divergence>,
    last_time: Option<i64>,
) -> Seq<Divergence> {
    match found {
        Option::Some(d) => drop_overlapping(divs, d.start).push(d),
        Option::None => if divs.len() > 0 && last_time is Some && divs.last().end
            == last_time.unwrap() {
            divs.drop_last()
        } else {
            divs
        },
    }
}

pub open spec fn last_time_opt(df: DataFrame) -> Option<i64> {
    if df.index@.len() > 0 {
        Some(df.index@.last())
    } else {
        None
    }
}

impl Chart {
    /// Run the divergence detector over the current frame and reconcile
    /// the divergence list, when the configuration asks for divergences.
    pub fn update_divergences(&mut self, trend: Trend)
        requires
            old(self).config.use_divergence ==> df_divergence_ready(old(self).dataframe),
        ensures
            final(self).config == old(self).config,
            final(self).aggregated == old(self).aggregated,
            final(self).dataframe == old(self).dataframe,
            final(self).messages == old(self).messages,
            final(self).atr == old(self).atr,
            !old(self).config.use_divergence ==> final(self).divergences == old(self).divergences,
            old(self).config.use_divergence ==> final(self).divergences@ == reconcile(
                old(self).divergences@,
                div_found_spec(old(self).dataframe, trend),
                last_time_opt(old(self).dataframe),
            ),
    {
        if !self.config.use_divergence {
            return;
        }
        let peaks = matches!(trend, Trend::Bearish);
        let col_idx: usize = if peaks {
            2
        } else {
            1
        };
        let n = self.dataframe.index.len();
        let ghost gdata = self.dataframe.cols@[col_idx as int].data@;
        let mut prices: Vec<i64> = Vec::new();
        let mut k: usize = 0;
        while k < n
            invariant
                0 <= k <= n,
                n == self.dataframe.index@.len(),
                col_idx == 1 || col_idx == 2,
                df_divergence_ready(self.dataframe),
                gdata == self.dataframe.cols@[col_idx as int].data@,
                gdata.len() == n,
                prices@.len() == k,
                forall|m: int| 0 <= m < k ==> prices@[m] == gdata[m].unwrap(),
            decreases n - k,
        {
            let v = match self.dataframe.cols[col_idx].data[k] {
                Option::Some(v) => v,
                Option::None => 0,
            };
            prices.push(v);
            k = k + 1;
        }
        let ghost gosc = self.dataframe.cols@[6].data@;
        let mut osc: Vec<Option<i64>> = Vec::new();
        let mut k2: usize = 0;
        while k2 < n
            invariant
                0 <= k2 <= n,
                n == self.dataframe.index@.len(),
                df_divergence_ready(self.dataframe),
                gosc == self.dataframe.cols@[6].data@,
                gosc.len() == n,
                osc@.len() == k2,
                forall|m: int| 0 <= m < k2 ==> osc@[m] == gosc[m],
            decreases n - k2,
        {
            osc.push(self.dataframe.cols[6].data[k2]);
            k2 = k2 + 1;
        }
        proof {
            assert(prices@ =~= unwrap_cells(gdata));
            assert(osc@ =~= gosc);
        }
        let found = find_divergence(trend, &self.dataframe.index, &prices, &osc);
        let ghost gfound = div_found_spec(self.dataframe, trend);
        proof {
            match find_divergence_spec(trend, self.dataframe.index@, prices@, osc@) {
                Option::None => {
                    assert(found is None && gfound is None);
                },
                Option::Some(i) => {
                    assert(found == gfound);
                },
            }
        }
        match found {
            Option::Some(d) => {
                let ghost divs0 = self.divergences@;
                while self.divergences.len() > 0 && self.divergences[self.divergences.len()
                    - 1].end > d.start
                    invariant
                        self.config == old(self).config,
                        self.aggregated == old(self).aggregated,
                        self.dataframe == old(self).dataframe,
                        self.messages == old(self).messages,
                        self.atr == old(self).atr,
                        drop_overlapping(divs0, d.start) == drop_overlapping(
                            self.divergences@,
                            d.start,
                        ),
                    decreases self.divergences@.len(),
                {
                    self.divergences.pop();
                }
                self.divergences.push(d);
                proof {
                    assert(drop_overlapping(self.divergences@.drop_last(), d.start)
                        == self.divergences@.drop_last());
                }
            },
            Option::None => {
                let has_last = self.divergences.len() > 0 && n > 0;
                if has_last {
                    let last_div_end = self.divergences[self.divergences.len() - 1].end;
                    if last_div_end == self.dataframe.index[n - 1] {
                        self.divergences.pop();
                    }
                }
            },
        }
    }
}

/// A rebuilt frame over a healthy aggregation is ready for the
/// divergence detector: strictly increasing in-range instants, gap-free
/// in-range price columns, an in-range oscillator column.
pub proof fn lemma_frame_divergence_ready(
    df: DataFrame,
    agg: Seq<Candle>,
    ema: Seq<Option<i64>>,
    osc: Seq<Option<i64>>,
    days: int,
    min_span: int,
    use_vwap: bool,
)
    requires
        chart_frame_ok(df, agg, ema, osc, days, min_span, use_vwap),
        log_wf(agg),
        forall|i: int, j: int| 0 <= i < j < agg.len() ==> agg[i].time < agg[j].time,
        forall|k: int|
            0 <= k < osc.len() ==> ((#[trigger] osc[k]) matches Some(v)
                ==> crate::candle::price_ok(v)),
    ensures
        df_divergence_ready(df),
{
    let ftimes = times_of(agg);
    let kd = retained_days(ftimes, min_span, days);
    let n = agg.len() as int;
    crate::dataframe::lemma_keep_pos_days_range(ftimes, kd, ftimes.len() as int);
    let keep = crate::dataframe::keep_pos_days(ftimes, kd);
    assert forall|i: int, j: int|
        0 <= i < j < df.index@.len() implies df.index@[i] < df.index@[j] by {
        assert(df.index@[i] == ftimes[keep[i]]);
        assert(df.index@[j] == ftimes[keep[j]]);
        assert(keep[i] < keep[j]);
        assert(ftimes[keep[i]] == agg[keep[i]].time);
        assert(ftimes[keep[j]] == agg[keep[j]].time);
    }
    assert forall|i: int|
        0 <= i < df.index@.len() implies crate::candle::time_ok(#[trigger] df.index@[i]) by {
        assert(df.index@[i] == ftimes[keep[i]]);
        assert(ftimes[keep[i]] == agg[keep[i]].time);
    }
    assert forall|k: int|
        0 <= k < df.index@.len() implies (#[trigger] df.cols@[1].data@[k]) is Some
        && crate::candle::price_ok(df.cols@[1].data@[k].unwrap()) by {
        assert(df.cols@[1].data@[k] == low_cells(agg)[keep[k]]);
        assert(low_cells(agg)[keep[k]] == Some(agg[keep[k]].low));
    }
    assert forall|k: int|
        0 <= k < df.index@.len() implies (#[trigger] df.cols@[2].data@[k]) is Some
        && crate::candle::price_ok(df.cols@[2].data@[k].unwrap()) by {
        assert(df.cols@[2].data@[k] == high_cells(agg)[keep[k]]);
        assert(high_cells(agg)[keep[k]] == Some(agg[keep[k]].high));
    }
    assert forall|k: int|
        0 <= k < df.index@.len() implies ((#[trigger] df.cols@[6].data@[k]) matches Some(v)
        ==> crate::candle::price_ok(v)) by {
        assert(df.cols@[6].data@[k] == fit_spec(osc, n)[keep[k]]);
        let cell = fit_spec(osc, n)[keep[k]];
        if cell is Some {
            if osc.len() >= n {
                assert(cell == osc[keep[k]]);
            } else {
                if keep[k] >= n - osc.len() {
                    assert(cell == osc[keep[k] - (n - osc.len())]);
                }
            }
        }
    }
}

/// A name that differs from every column name is absent.
proof fn lemma_find_col_absent(cols: Seq<crate::dataframe::Column>, name: Seq<char>)
    requires
        forall|j: int| 0 <= j < cols.len() ==> (#[trigger] cols[j]).name@ != name,
    ensures
        find_col(cols, name) is None,
    decreases cols.len(),
{
    if cols.len() > 0 {
        assert(forall|j: int| 0 <= j < cols.len() - 1 ==> #[trigger] cols.skip(1)[j] == cols[j + 1]);
        lemma_find_col_absent(cols.skip(1), name);
    }
}

/// The volume analyses of one chart update, in order: the period
/// relative volume against the supplied EMA baseline, the same-time-of-
/// day relative volume, today's session volume against the earlier
/// days' same-prefix average, and the daily-total prediction — or the
/// note that no predictor was available — once history reaches past
/// today.
pub open spec fn volume_messages_spec(
    agg: Seq<Candle>,
    tf: i64,
    os: int,
    oe: int,
    span: int,
    prev_vol_ema: Option<i64>,
    predicted: Option<i64>,
    now: i64,
) -> Seq<crate::volume::VolumeMessage> {
    let m_rvol = if agg.len() > 0 && prev_vol_ema is Some {
        match crate::volume::normalized_volume_spec(agg.last().volume, tf, now, agg.last().time) {
            Option::Some(nv) => seq![
                crate::volume::VolumeMessage::Rvol {
                    normalized: nv,
                    baseline: prev_vol_ema.unwrap(),
                },
            ],
            Option::None => Seq::empty(),
        }
    } else {
        Seq::empty()
    };
    let m_ct = if agg.len() > 0 {
        match (
            crate::volume::normalized_volume_spec(agg.last().volume, tf, now, agg.last().time),
            crate::volume::avg_vol_same_tod_spec(times_of(agg), crate::volume::vols_of(agg)),
        ) {
            (Option::Some(nv), Option::Some(av)) => seq![
                crate::volume::VolumeMessage::CurTimeRvol { normalized: nv, average: av },
            ],
            _ => Seq::empty(),
        }
    } else {
        Seq::empty()
    };
    let m_daily = match crate::volume::daily_avg_vol_until_now_spec(agg, os, oe, span) {
        Option::Some((today, other)) => seq![
            crate::volume::VolumeMessage::DailyVolume { today, other_days_avg: other },
        ],
        Option::None => Seq::empty(),
    };
    let m_pred = if agg.len() > 0 && spec_day_of(agg[0].time) < spec_day_of(agg.last().time) {
        match predicted {
            Option::Some(p) => seq![
                crate::volume::VolumeMessage::DailyPrediction {
                    predicted: p,
                    daily_avg: crate::volume::daily_avg_volume_spec(agg, os, oe, span),
                },
            ],
            Option::None => seq![crate::volume::VolumeMessage::PredictorUnavailable],
        }
    } else {
        Seq::empty()
    };
    m_rvol + m_ct + m_daily + m_pred
}

impl Chart {
    /// Replace the chart's message list with this update's volume
    /// analyses. The EMA baseline of prior volumes and the optional
    /// predictor figure are numeric-library inputs; `now` is the end
    /// instant of the raw log's last candle.
    pub fn analyze_volume(
        &mut self,
        prev_vol_ema: Option<i64>,
        predicted: Option<i64>,
        now: i64,
        open_start: i64,
        open_end: i64,
        min_span: i64,
    )
        requires
            log_wf(old(self).aggregated@),
            old(self).aggregated@.len() < 1_000_000,
            crate::candle::time_ok(now),
            config_wf(old(self).config),
        ensures
            final(self).config == old(self).config,
            final(self).aggregated == old(self).aggregated,
            final(self).dataframe == old(self).dataframe,
            final(self).divergences == old(self).divergences,
            final(self).atr == old(self).atr,
            final(self).messages@ == volume_messages_spec(
                old(self).aggregated@,
                old(self).config.timeframe_secs,
                open_start as int,
                open_end as int,
                min_span as int,
                prev_vol_ema,
                predicted,
                now,
            ),
    {
        let ghost agg = self.aggregated@;
        let tf = self.config.timeframe_secs;
        let n = self.aggregated.len();
        let mut messages: Vec<crate::volume::VolumeMessage> = Vec::new();
        let norm = if n > 0 {
            let last = self.aggregated[n - 1];
            crate::volume::normalized_volume(last.volume, tf, now, last.time)
        } else {
            None
        };
        if n > 0 {
            if let Option::Some(base) = prev_vol_ema {
                if let Option::Some(nv) = norm {
                    messages.push(
                        crate::volume::VolumeMessage::Rvol { normalized: nv, baseline: base },
                    );
                }
            }
        }
        if n > 0 {
            let mut times: Vec<i64> = Vec::new();
            let mut vols: Vec<u64> = Vec::new();
            let mut k: usize = 0;
            while k < n
                invariant
                    0 <= k <= n,
                    n == agg.len(),
                    agg == self.aggregated@,
                    times@.len() == k,
                    vols@.len() == k,
                    forall|q: int| 0 <= q < k ==> times@[q] == (#[trigger] agg[q]).time,
                    forall|q: int| 0 <= q < k ==> vols@[q] == (#[trigger] agg[q]).volume,
                decreases n - k,
            {
                let c = self.aggregated[k];
                times.push(c.time);
                vols.push(c.volume);
                k = k + 1;
            }
            proof {
                assert(times@ =~= times_of(agg));
                assert(vols@ =~= crate::volume::vols_of(agg));
            }
            let av = crate::volume::avg_vol_same_tod(&times, &vols);
            if let (Option::Some(nv), Option::Some(a)) = (norm, av) {
                messages.push(
                    crate::volume::VolumeMessage::CurTimeRvol { normalized: nv, average: a },
                );
            }
        }
        match crate::volume::daily_avg_vol_until_now(
            &self.aggregated,
            open_start,
            open_end,
            min_span,
        ) {
            Option::Some((today, other)) => {
                messages.push(
                    crate::volume::VolumeMessage::DailyVolume { today, other_days_avg: other },
                );
            },
            Option::None => {},
        }
        if n > 0 && self.aggregated[0].time / crate::dataframe::DAY_SECS < self.aggregated[n
            - 1].time / crate::dataframe::DAY_SECS {
            match predicted {
                Option::Some(p) => {
                    let daily_avg = crate::volume::daily_avg_volume(
                        &self.aggregated,
                        open_start,
                        open_end,
                        min_span,
                    );
                    messages.push(
                        crate::volume::VolumeMessage::DailyPrediction { predicted: p, daily_avg },
                    );
                },
                Option::None => {
                    messages.push(crate::volume::VolumeMessage::PredictorUnavailable);
                },
            }
        }
        proof {
            assert(messages@ =~= volume_messages_spec(
                agg,
                tf,
                open_start as int,
                open_end as int,
                min_span as int,
                prev_vol_ema,
                predicted,
                now,
            ));
        }
        self.messages = messages;
    }
}

/// The last row before regular trading opened, scanning backwards.
pub open spec fn last_pre_open(times: Seq<i64>, start: int, i: int) -> Option<int>
    decreases i + 1,
{
    if i < 0 {
        None
    } else if crate::dataframe::spec_tod_of(times[i]) < start {
        Some(i)
    } else {
        last_pre_open(times, start, i - 1)
    }
}

/// The day's price change: the last close minus the close of the last
/// row before regular trading opened; nothing without such a row.
pub open spec fn price_change_spec(times: Seq<i64>, closes: Seq<i64>, start: int) -> Option<i64> {
    if times.len() == 0 {
        None
    } else {
        match last_pre_open(times, start, times.len() - 1) {
            Option::None => None,
            Option::Some(k) => Some((closes.last() - closes[k]) as i64),
        }
    }
}

/// Compute the day's price change over a frame's instants and closes.
pub fn price_change(times: &Vec<i64>, closes: &Vec<i64>, trading_start: i64) -> (r: Option<i64>)
    requires
        times@.len() == closes@.len(),
        forall|k: int| 0 <= k < times@.len() ==> 0 <= #[trigger] times@[k],
        forall|k: int| 0 <= k < closes@.len() ==> crate::candle::price_ok(#[trigger] closes@[k]),
    ensures
        r == price_change_spec(times@, closes@, trading_start as int),
{
    let n = times.len();
    if n == 0 {
        return None;
    }
    let mut i: usize = n;
    while i > 0
        invariant
            0 <= i <= n,
            n == times@.len(),
            n == closes@.len(),
            n > 0,
            forall|k: int| 0 <= k < times@.len() ==> 0 <= #[trigger] times@[k],
            forall|k: int|
                0 <= k < closes@.len() ==> crate::candle::price_ok(#[trigger] closes@[k]),
            last_pre_open(times@, trading_start as int, n - 1) == last_pre_open(
                times@,
                trading_start as int,
                i - 1,
            ),
        decreases i,
    {
        if times[i - 1] % crate::dataframe::DAY_SECS < trading_start {
            return Some(closes[n - 1] - closes[i - 1]);
        }
        i = i - 1;
    }
    None
}

} // verus!
