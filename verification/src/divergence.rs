//! Divergence detection: find strict local extrema of an indicator
//! series, then walk them backwards from the terminal extremum comparing
//! the indicator slope against the slope of the Gaussian-smoothed price
//! series; emit at the first pair whose slopes point in opposite
//! directions.
//!
//! A slope stands for the angle `atan2(dy, dx)` of the classical detector:
//! with `dx > 0` the angle is strictly increasing in `dy / dx`, so angle
//! comparisons are exact rational comparisons and the angle's sign is the
//! sign of `dy`. A missing indicator value compares like a floating-point
//! gap: every comparison with it is false.

use vstd::prelude::*;

use crate::candle::{price_ok, time_ok};
use crate::smooth::{gaussian_kernel_sigma_one, gaussian_smooth, prices_in_range, smooth_spec};
use crate::trend::Trend;

verus! {

/// An emitted divergence: the two anchor instants with their raw prices
/// and indicator values.
#[derive(Clone, Copy, Debug, PartialEq, Eq, Structural)]
pub struct Divergence {
    pub trend: Trend,
    pub start: i64,
    pub start_price: i64,
    pub start_indicator: i64,
    pub end: i64,
    pub end_price: i64,
    pub end_indicator: i64,
}

/// The window order of the extremum search.
pub const EXTREMUM_ORDER: usize = 3;

/// Whether the value at `j` keeps the value at `i` from being an
/// extremum: for peaks a present `v[j]` at least as large as a present
/// `v[i]`; for valleys one at most as small. A missing value on either
/// side never blocks, as a floating-point gap compares false.
pub open spec fn blocks(v: Seq<Option<i64>>, peaks: bool, i: int, j: int) -> bool {
    &&& v[j] is Some
    &&& v[i] is Some
    &&& if peaks {
        v[j].unwrap() >= v[i].unwrap()
    } else {
        v[j].unwrap() <= v[i].unwrap()
    }
}

pub open spec fn window_lo(i: int, order: int) -> int {
    if i - order > 0 {
        i - order
    } else {
        0
    }
}

pub open spec fn window_hi(len: int, i: int, order: int) -> int {
    if i + order + 1 < len {
        i + order + 1
    } else {
        len
    }
}

/// A strict local extremum within `order` positions on both sides.
pub open spec fn is_extremum(v: Seq<Option<i64>>, peaks: bool, order: int, i: int) -> bool {
    forall|j: int|
        window_lo(i, order) <= j < window_hi(v.len() as int, i, order) && j != i ==> !#[trigger] blocks(
            v,
            peaks,
            i,
            j,
        )
}

/// The ascending indices of the extrema of the series.
pub open spec fn extrema_seq(v: Seq<Option<i64>>, peaks: bool, order: int) -> Seq<int> {
    Seq::new(v.len(), |i: int| i).filter(|i: int| is_extremum(v, peaks, order, i))
}

/// Find the strict local extrema of the series with the given window
/// order. Degenerate input (an empty series or a zero order) gives no
/// extrema.
pub fn find_extrema(values: &Vec<Option<i64>>, peaks: bool, order: usize) -> (out: Vec<usize>)
    ensures
        values@.len() == 0 || order == 0 ==> out@.len() == 0,
        values@.len() > 0 && order > 0 ==> out@.map_values(|u: usize| u as int) == extrema_seq(
            values@,
            peaks,
            order as int,
        ),
        forall|t: int| 0 <= t < out@.len() ==> (#[trigger] out@[t]) < values@.len(),
        forall|t: int|
            0 <= t < out@.len() ==> is_extremum(values@, peaks, order as int, out@[t] as int),
        forall|t1: int, t2: int| 0 <= t1 < t2 < out@.len() ==> out@[t1] < out@[t2],
{
    let mut out: Vec<usize> = Vec::new();
    let len = values.len();
    if len == 0 || order == 0 {
        return out;
    }
    let ghost v = values@;
    let ghost pred = |i: int| is_extremum(v, peaks, order as int, i);
    let mut i: usize = 0;
    proof {
        reveal(Seq::filter);
        assert(Seq::new(0nat, |k: int| k).filter(pred) =~= Seq::<int>::empty());
        assert(out@.map_values(|u: usize| u as int) =~= Seq::<int>::empty());
    }
    while i < len
        invariant
            0 <= i <= len,
            len == v.len(),
            v == values@,
            order > 0,
            pred == (|k: int| is_extremum(v, peaks, order as int, k)),
            out@.map_values(|u: usize| u as int) == Seq::new(i as nat, |k: int| k).filter(pred),
            forall|t: int| 0 <= t < out@.len() ==> (#[trigger] out@[t]) < i,
            forall|t: int|
                0 <= t < out@.len() ==> is_extremum(v, peaks, order as int, out@[t] as int),
            forall|t1: int, t2: int| 0 <= t1 < t2 < out@.len() ==> out@[t1] < out@[t2],
        decreases len - i,
    {
        let lo = if i > order {
            i - order
        } else {
            0
        };
        let hi = if order < len && i < len - order {
            i + order + 1
        } else {
            len
        };
        proof {
            assert(lo == window_lo(i as int, order as int));
            assert(hi == window_hi(len as int, i as int, order as int));
        }
        let mut ok = true;
        let mut j: usize = lo;
        while j < hi
            invariant
                window_lo(i as int, order as int) == lo,
                window_hi(len as int, i as int, order as int) == hi,
                lo <= j <= hi <= len,
                i < len,
                len == v.len(),
                v == values@,
                ok == forall|m: int|
                    lo <= m < j && m != i as int ==> !#[trigger] blocks(v, peaks, i as int, m),
            decreases hi - j,
        {
            if j != i {
                let blocked = match (values[j], values[i]) {
                    (Option::Some(a), Option::Some(b)) => {
                        if peaks {
                            a >= b
                        } else {
                            a <= b
                        }
                    },
                    _ => false,
                };
                proof {
                    assert(blocked == blocks(v, peaks, i as int, j as int));
                }
                if blocked {
                    ok = false;
                }
            }
            j = j + 1;
        }
        let ghost prev = out@;
        if ok {
            out.push(i);
        }
        proof {
            reveal(Seq::filter);
            let idxs_next = Seq::new((i + 1) as nat, |k: int| k);
            let idxs = Seq::new(i as nat, |k: int| k);
            assert(idxs_next.drop_last() =~= idxs);
            assert(idxs_next.last() == i as int);
            assert(pred(i as int) == ok);
            if ok {
                assert(out@.map_values(|u: usize| u as int) =~= prev.map_values(
                    |u: usize| u as int,
                ).push(i as int));
            } else {
                assert(out@.map_values(|u: usize| u as int) =~= prev.map_values(
                    |u: usize| u as int,
                ));
            }
        }
        i = i + 1;
    }
    proof {
        assert(Seq::new(len as nat, |k: int| k) == Seq::new(v.len(), |k: int| k));
    }
    out
}

/// A slope value: the angle of a segment, a missing angle (an endpoint
/// had no indicator value), or the sentinel start values the walk begins
/// from.
#[derive(Clone, Copy, Debug, PartialEq, Eq, Structural)]
pub enum SlopeVal {
    /// One endpoint was a gap: compares false against everything.
    Missing,
    /// Above every finite angle, the starting point of the peak walk.
    Top,
    /// Below every finite angle, the starting point of the valley walk.
    Bottom,
    /// The angle `atan2(dy, dx)` of a segment with `dx > 0`.
    At { dy: i64, dx: i64 },
}

/// Strict angle order: `a > b`. A missing angle compares false; finite
/// angles with positive runs compare as the rationals `dy/dx`.
pub open spec fn angle_gt(a: SlopeVal, b: SlopeVal) -> bool {
    match (a, b) {
        (SlopeVal::Missing, _) => false,
        (_, SlopeVal::Missing) => false,
        (SlopeVal::At { dy: dy1, dx: dx1 }, SlopeVal::At { dy: dy2, dx: dx2 }) => dy1 * dx2 > dy2
            * dx1,
        (SlopeVal::At { .. }, SlopeVal::Top) => false,
        (SlopeVal::At { .. }, SlopeVal::Bottom) => true,
        (SlopeVal::Top, SlopeVal::Top) => false,
        (SlopeVal::Top, _) => true,
        (SlopeVal::Bottom, _) => false,
    }
}

/// The indicator slope between extremum `i` and the terminal extremum
/// `li`: missing when either endpoint is a gap.
pub open spec fn ind_angle(ind: Seq<Option<i64>>, times: Seq<i64>, i: int, li: int) -> SlopeVal {
    if ind[i] is Some && ind[li] is Some {
        SlopeVal::At {
            dy: (ind[li].unwrap() - ind[i].unwrap()) as i64,
            dx: (times[li] - times[i]) as i64,
        }
    } else {
        SlopeVal::Missing
    }
}

/// The slope of the smoothed price series between `i` and `li`.
pub open spec fn price_angle(sp: Seq<i64>, times: Seq<i64>, i: int, li: int) -> SlopeVal {
    SlopeVal::At { dy: (sp[li] - sp[i]) as i64, dx: (times[li] - times[i]) as i64 }
}

/// The emit test: the product of the two angles is negative, so both are
/// finite and their rises have strictly opposite signs.
pub open spec fn opposite(pa: SlopeVal, ia: SlopeVal) -> bool {
    match (pa, ia) {
        (SlopeVal::At { dy: dp, .. }, SlopeVal::At { dy: di, .. }) => (dp > 0 && di < 0) || (dp < 0
            && di > 0),
        _ => false,
    }
}

/// The walk over the earlier extrema, from position `t` downwards with
/// the running extreme angle `last`: skip pairs whose indicator angle
/// does not push past `last`, emit the first remaining pair with opposite
/// price and indicator slopes.
pub open spec fn div_scan(
    ind: Seq<Option<i64>>,
    sp: Seq<i64>,
    times: Seq<i64>,
    ext: Seq<int>,
    peaks: bool,
    t: int,
    last: SlopeVal,
) -> Option<int>
    decreases t + 1,
{
    if t < 0 {
        None
    } else {
        let i = ext[t];
        let li = ext[ext.len() - 1];
        let ia = ind_angle(ind, times, i, li);
        if (peaks && angle_gt(ia, last)) || (!peaks && angle_gt(last, ia)) {
            div_scan(ind, sp, times, ext, peaks, t - 1, last)
        } else if opposite(price_angle(sp, times, i, li), ia) {
            Some(i)
        } else {
            div_scan(ind, sp, times, ext, peaks, t - 1, ia)
        }
    }
}

/// The five-tap kernel the price series is smoothed with.
pub open spec fn divergence_kernel() -> Seq<u64> {
    seq![54489u64, 244201u64, 402620u64, 244201u64, 54489u64]
}

/// The index the detector starts its walk from: the position before the
/// terminal extremum.
pub open spec fn div_start(peaks: bool) -> SlopeVal {
    if peaks {
        SlopeVal::Top
    } else {
        SlopeVal::Bottom
    }
}

/// What the detector finds: the start index of the emitted divergence,
/// if any. No divergence without a strict trend, without extrema, or
/// when the terminal point of the series is not itself an extremum.
pub open spec fn find_divergence_spec(
    trend: Trend,
    times: Seq<i64>,
    prices: Seq<i64>,
    ind: Seq<Option<i64>>,
) -> Option<int> {
    let peaks = trend == Trend::Bearish;
    let ext = extrema_seq(ind, peaks, EXTREMUM_ORDER as int);
    if trend == Trend::Flat {
        None
    } else if ext.len() == 0 || ext.last() != ind.len() - 1 {
        None
    } else {
        let sp = smooth_spec(prices, divergence_kernel());
        div_scan(ind, sp, times, ext, peaks, ext.len() - 2, div_start(peaks))
    }
}

pub open spec fn opt_prices_in_range(s: Seq<Option<i64>>) -> bool {
    forall|i: int| 0 <= i < s.len() ==> (#[trigger] s[i]) is Some ==> price_ok(s[i].unwrap())
}

pub open spec fn times_ok_strict(times: Seq<i64>) -> bool {
    &&& forall|i: int| 0 <= i < times.len() ==> time_ok(#[trigger] times[i])
    &&& forall|i: int, j: int| 0 <= i < j < times.len() ==> times[i] < times[j]
}

/// Compare two slope values as the angles they stand for.
fn angle_gt_exec(a: SlopeVal, b: SlopeVal) -> (r: bool)
    ensures
        r == angle_gt(a, b),
{
    match (a, b) {
        (SlopeVal::Missing, _) => false,
        (_, SlopeVal::Missing) => false,
        (SlopeVal::At { dy: dy1, dx: dx1 }, SlopeVal::At { dy: dy2, dx: dx2 }) => {
            proof {
                lemma_i64_prod_fits_i128(dy1 as int, dx2 as int);
                lemma_i64_prod_fits_i128(dy2 as int, dx1 as int);
            }
            (dy1 as i128) * (dx2 as i128) > (dy2 as i128) * (dx1 as i128)
        },
        (SlopeVal::At { .. }, SlopeVal::Top) => false,
        (SlopeVal::At { .. }, SlopeVal::Bottom) => true,
        (SlopeVal::Top, SlopeVal::Top) => false,
        (SlopeVal::Top, _) => true,
        (SlopeVal::Bottom, _) => false,
    }
}

/// The product of two 64-bit values always fits a 128-bit value.
proof fn lemma_i64_prod_fits_i128(a: int, b: int)
    requires
        -0x8000000000000000 <= a < 0x8000000000000000,
        -0x8000000000000000 <= b < 0x8000000000000000,
    ensures
        -0x80000000000000000000000000000000 <= a * b < 0x80000000000000000000000000000000,
{
    assert(-0x80000000000000000000000000000000 <= a * b
        < 0x80000000000000000000000000000000) by (nonlinear_arith)
        requires
            -0x8000000000000000 <= a < 0x8000000000000000,
            -0x8000000000000000 <= b < 0x8000000000000000,
    ;
}

/// Run the divergence detector over one chart's series: the row instants,
/// the price column the trend selects (highs for a bearish trend, lows
/// for a bullish one), and the indicator column with its warm-up gaps.
///
/// Emits at most one divergence: the one `find_divergence_spec` names,
/// anchored at the found extremum and the terminal extremum, carrying the
/// raw (unsmoothed) prices and the indicator values at the anchors.
pub fn find_divergence(
    trend: Trend,
    times: &Vec<i64>,
    prices: &Vec<i64>,
    indicator: &Vec<Option<i64>>,
) -> (r: Option<Divergence>)
    requires
        times@.len() == prices@.len(),
        times@.len() == indicator@.len(),
        times_ok_strict(times@),
        prices_in_range(prices@),
        opt_prices_in_range(indicator@),
    ensures
        match find_divergence_spec(trend, times@, prices@, indicator@) {
            Option::None => r is None,
            Option::Some(i) => {
                let li = indicator@.len() - 1;
                r == Some(
                    Divergence {
                        trend,
                        start: times@[i],
                        start_price: prices@[i],
                        start_indicator: indicator@[i].unwrap(),
                        end: times@[li],
                        end_price: prices@[li],
                        end_indicator: indicator@[li].unwrap(),
                    },
                )
            },
        },
{
    let ghost gspec = find_divergence_spec(trend, times@, prices@, indicator@);
    if matches!(trend, Trend::Flat) {
        return None;
    }
    let peaks = matches!(trend, Trend::Bearish);
    let ext = find_extrema(indicator, peaks, EXTREMUM_ORDER);
    let ghost gext = extrema_seq(indicator@, peaks, EXTREMUM_ORDER as int);
    proof {
        if indicator@.len() == 0 {
            reveal(Seq::filter);
            assert(gext =~= Seq::<int>::empty());
            assert(ext@.map_values(|w: usize| w as int) =~= Seq::<int>::empty());
        }
        assert(ext@.map_values(|w: usize| w as int) == gext);
        assert(ext@.len() == gext.len());
    }
    if ext.len() == 0 {
        return None;
    }
    if ext[ext.len() - 1] != indicator.len() - 1 {
        proof {
            assert(gext.last() == ext@[ext@.len() - 1] as int);
        }
        return None;
    }
    proof {
        assert(gext.last() == ext@[ext@.len() - 1] as int);
        assert(gext.last() == indicator@.len() - 1);
    }
    let kernel = gaussian_kernel_sigma_one();
    let sp = gaussian_smooth(prices, &kernel);
    proof {
        assert(kernel@ =~= divergence_kernel());
        assert(sp@ == smooth_spec(prices@, divergence_kernel()));
    }
    let li = ext[ext.len() - 1];
    let mut last: SlopeVal = if peaks {
        SlopeVal::Top
    } else {
        SlopeVal::Bottom
    };
    let mut u: usize = ext.len() - 1;
    proof {
        assert(gext[gext.len() - 1] == ext@[ext@.len() - 1] as int);
        assert(gspec == div_scan(
            indicator@,
            sp@,
            times@,
            gext,
            peaks,
            u - 1,
            div_start(peaks),
        ));
    }
    while u > 0
        invariant
            0 <= u <= ext@.len(),
            ext@.len() <= times@.len(),
            times@.len() == prices@.len(),
            times@.len() == indicator@.len(),
            times_ok_strict(times@),
            prices_in_range(prices@),
            opt_prices_in_range(indicator@),
            prices_in_range(sp@),
            sp@.len() == prices@.len(),
            peaks == (trend == Trend::Bearish),
            trend != Trend::Flat,
            gspec == find_divergence_spec(trend, times@, prices@, indicator@),
            sp@ == smooth_spec(prices@, divergence_kernel()),
            gext == extrema_seq(indicator@, peaks, EXTREMUM_ORDER as int),
            ext@.map_values(|w: usize| w as int) == gext,
            forall|t: int| 0 <= t < ext@.len() ==> (#[trigger] ext@[t]) < indicator@.len(),
            forall|t1: int, t2: int| 0 <= t1 < t2 < ext@.len() ==> ext@[t1] < ext@[t2],
            li == ext@[ext@.len() - 1],
            li < indicator@.len(),
            gspec == div_scan(indicator@, sp@, times@, gext, peaks, u - 1, last),
        decreases u,
    {
        let i = ext[u - 1];
        proof {
            assert(gext[u - 1] == i as int);
            assert(gext[gext.len() - 1] == li as int);
            if (u as int) - 1 < (ext@.len() as int) - 1 {
                assert(ext@[u - 1] < ext@[ext@.len() - 1]);
            }
        }
        let dx = times[li] - times[i];
        let ia = match (indicator[i], indicator[li]) {
            (Option::Some(a), Option::Some(b)) => SlopeVal::At { dy: b - a, dx },
            _ => SlopeVal::Missing,
        };
        proof {
            assert(ia == ind_angle(indicator@, times@, i as int, li as int));
        }
        let skip = if peaks {
            angle_gt_exec(ia, last)
        } else {
            angle_gt_exec(last, ia)
        };
        if !skip {
            let pa = SlopeVal::At { dy: sp[li] - sp[i], dx };
            proof {
                assert(pa == price_angle(sp@, times@, i as int, li as int));
            }
            let emit = match (pa, ia) {
                (SlopeVal::At { dy: dp, .. }, SlopeVal::At { dy: di, .. }) => (dp > 0 && di < 0)
                    || (dp < 0 && di > 0),
                _ => false,
            };
            proof {
                assert(emit == opposite(pa, ia));
            }
            if emit {
                let (si, sli) = match (indicator[i], indicator[li]) {
                    (Option::Some(a), Option::Some(b)) => (a, b),
                    _ => (0i64, 0i64),
                };
                return Some(
                    Divergence {
                        trend,
                        start: times[i],
                        start_price: prices[i],
                        start_indicator: si,
                        end: times[li],
                        end_price: prices[li],
                        end_indicator: sli,
                    },
                );
            }
            last = ia;
        }
        u = u - 1;
    }
    proof {
        assert(div_scan(indicator@, sp@, times@, gext, peaks, -1, last) is None);
    }
    None
}

/// The opposite-slope law: whenever the detector emits, the smoothed
/// price slope and the indicator slope between the two anchors have
/// strictly opposite signs.
pub proof fn lemma_divergence_opposite_slope(
    trend: Trend,
    times: Seq<i64>,
    prices: Seq<i64>,
    ind: Seq<Option<i64>>,
)
    requires
        times.len() == prices.len(),
        prices.len() == ind.len(),
        prices_in_range(prices),
        opt_prices_in_range(ind),
        find_divergence_spec(trend, times, prices, ind) is Some,
    ensures
        ({
            let i = find_divergence_spec(trend, times, prices, ind).unwrap();
            let li = ind.len() - 1;
            let sp = smooth_spec(prices, divergence_kernel());
            &&& ind[i] is Some
            &&& ind[li] is Some
            &&& ((sp[li] - sp[i] > 0 && ind[li].unwrap() - ind[i].unwrap() < 0) || (sp[li] - sp[i]
                < 0 && ind[li].unwrap() - ind[i].unwrap() > 0))
        }),
{
    let peaks = trend == Trend::Bearish;
    let ext = extrema_seq(ind, peaks, EXTREMUM_ORDER as int);
    lemma_divergence_kernel_wf();
    crate::smooth::lemma_smooth_spec_in_range(prices, divergence_kernel());
    let sp = smooth_spec(prices, divergence_kernel());
    assert(trend != Trend::Flat);
    assert(ext.len() > 0 && ext.last() == ind.len() - 1);
    lemma_extrema_in_range(ind, peaks, EXTREMUM_ORDER as int);
    lemma_div_scan_opposite(ind, sp, times, ext, peaks, ext.len() - 2, div_start(peaks));
    assert(ext[ext.len() - 1] == ind.len() - 1);
}

/// Every index the extremum search names lies inside the series.
pub proof fn lemma_extrema_in_range(v: Seq<Option<i64>>, peaks: bool, order: int)
    ensures
        forall|m: int|
            0 <= m < extrema_seq(v, peaks, order).len() ==> 0 <= #[trigger] extrema_seq(
                v,
                peaks,
                order,
            )[m] < v.len(),
{
    lemma_filter_elems_bounded(
        Seq::new(v.len(), |i: int| i),
        |i: int| is_extremum(v, peaks, order, i),
        0,
        v.len() as int,
    );
}

/// Filtering keeps every element within the bounds its source obeyed.
proof fn lemma_filter_elems_bounded(s: Seq<int>, pred: spec_fn(int) -> bool, lo: int, hi: int)
    requires
        forall|m: int| 0 <= m < s.len() ==> lo <= #[trigger] s[m] < hi,
    ensures
        forall|m: int|
            0 <= m < s.filter(pred).len() ==> lo <= #[trigger] s.filter(pred)[m] < hi,
    decreases s.len(),
{
    reveal(Seq::filter);
    if s.len() > 0 {
        assert(forall|m: int| 0 <= m < s.len() - 1 ==> #[trigger] s.drop_last()[m] == s[m]);
        lemma_filter_elems_bounded(s.drop_last(), pred, lo, hi);
        let f = s.filter(pred);
        let fd = s.drop_last().filter(pred);
        if pred(s.last()) {
            assert(f == fd.push(s.last()));
            assert forall|m: int| 0 <= m < f.len() implies lo <= #[trigger] f[m] < hi by {
                if m < f.len() - 1 {
                    assert(f[m] == fd[m]);
                } else {
                    assert(f[m] == s[s.len() - 1]);
                }
            }
        } else {
            assert(f == fd);
        }
    }
}

/// The five-tap kernel is well formed: odd length, weights summing to
/// the kernel scale.
pub proof fn lemma_divergence_kernel_wf()
    ensures
        crate::smooth::kernel_wf(divergence_kernel()),
{
    let k = divergence_kernel();
    assert(crate::smooth::ksum(k, 0) == 0);
    assert(crate::smooth::ksum(k, 1) == 54489);
    assert(crate::smooth::ksum(k, 2) == 298690);
    assert(crate::smooth::ksum(k, 3) == 701310);
    assert(crate::smooth::ksum(k, 4) == 945511);
    assert(crate::smooth::ksum(k, 5) == crate::smooth::KERNEL_SCALE);
}

/// Whatever `div_scan` returns was emitted at a pair with opposite
/// slopes.
proof fn lemma_div_scan_opposite(
    ind: Seq<Option<i64>>,
    sp: Seq<i64>,
    times: Seq<i64>,
    ext: Seq<int>,
    peaks: bool,
    t: int,
    last: SlopeVal,
)
    requires
        prices_in_range(sp),
        opt_prices_in_range(ind),
        sp.len() == ind.len(),
        ext.len() > 0,
        t < ext.len(),
        forall|m: int| 0 <= m < ext.len() ==> 0 <= #[trigger] ext[m] < ind.len(),
        div_scan(ind, sp, times, ext, peaks, t, last) is Some,
    ensures
        ({
            let i = div_scan(ind, sp, times, ext, peaks, t, last).unwrap();
            let li = ext[ext.len() - 1];
            &&& ind[i] is Some
            &&& ind[li] is Some
            &&& ((sp[li] - sp[i] > 0 && ind[li].unwrap() - ind[i].unwrap() < 0) || (sp[li] - sp[i]
                < 0 && ind[li].unwrap() - ind[i].unwrap() > 0))
        }),
    decreases t + 1,
{
    if t < 0 {
        assert(div_scan(ind, sp, times, ext, peaks, t, last) is None);
    } else {
        let i = ext[t];
        let li = ext[ext.len() - 1];
        let ia = ind_angle(ind, times, i, li);
        if (peaks && angle_gt(ia, last)) || (!peaks && angle_gt(last, ia)) {
            lemma_div_scan_opposite(ind, sp, times, ext, peaks, t - 1, last);
        } else if opposite(price_angle(sp, times, i, li), ia) {
        } else {
            lemma_div_scan_opposite(ind, sp, times, ext, peaks, t - 1, ia);
        }
    }
}

} // verus!
