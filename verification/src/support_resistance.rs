//! Support/resistance rejection recognition over a five-minute
//! aggregation: a contiguous green tail with enough body, a smoothed-low
//! pivot inside the level's band, an earlier smoothed-high approach peak
//! above the level with at least one red candle in between, and the
//! red/green volume balance that decides imminence.
//!
//! Resistance is the mirror image: negate the candles, check support at
//! the negated level, and negate the result back.

use vstd::prelude::*;

use crate::aggregate::{candles_in_range, lemma_vol_sum_prepend, lemma_vol_sum_split, lemma_vol_sum_nonneg, vol_sum};
use crate::candle::{abs_i64, price_ok, Candle};
use crate::smooth::{
    gaussian_kernel_sigma_half, gaussian_smooth, kernel_wf, ksum, prices_in_range, smooth_spec,
    KERNEL_SCALE,
};
use crate::trend::Trend;

verus! {

/// A detected rejection at a price level.
#[derive(Clone, Copy, Debug, PartialEq, Eq, Structural)]
pub struct PriceRejection {
    pub trend: Trend,
    pub price_level: i64,
    pub arriving_from: Candle,
    pub rejected_at: Candle,
    pub now: Candle,
    pub is_imminent: bool,
}

/// The clustering threshold around a price: its magnitude times the
/// configured per-myriad ratio.
pub open spec fn spec_threshold(price: i64, permyriad: u32) -> int {
    abs_i64(price as int) * permyriad / 10000
}

/// The clustering threshold of a price level.
pub fn threshold(price: i64, permyriad: u32) -> (r: i64)
    requires
        price_ok(price),
        permyriad <= 10000,
    ensures
        r == spec_threshold(price, permyriad),
        0 <= r <= 1_000_000_000_000,
{
    let a: i64 = if price >= 0 {
        price
    } else {
        -price
    };
    proof {
        assert(a * permyriad <= 1_000_000_000_000 * 10000) by (nonlinear_arith)
            requires
                0 <= a <= 1_000_000_000_000,
                0 <= permyriad <= 10000,
        ;
        assert(a * permyriad >= 0) by (nonlinear_arith)
            requires
                a >= 0,
                permyriad >= 0,
        ;
        vstd::arithmetic::div_mod::lemma_div_is_ordered(
            (a * permyriad) as int,
            10_000_000_000_000_000int,
            10000int,
        );
        vstd::arithmetic::div_mod::lemma_div_is_ordered(0int, (a * permyriad) as int, 10000int);
        vstd::arithmetic::mul::lemma_mul_is_commutative(1_000_000_000_000int, 10000int);
        vstd::arithmetic::div_mod::lemma_div_multiples_vanish(1_000_000_000_000int, 10000int);
        assert(10_000_000_000_000_000int == 10000int * 1_000_000_000_000int);
    }
    (a * (permyriad as i64)) / 10000
}

/// Green or doji: a candle the closing tail may contain.
pub open spec fn greenish(c: Candle) -> bool {
    c.spec_is_green() || c.spec_is_doji()
}

/// The backward scan for the earliest index of the contiguous green-or-
/// doji tail: walk from `i` down to one, remembering the last index that
/// qualified, stopping at the first that does not.
pub open spec fn lg_scan(s: Seq<Candle>, i: int, acc: Option<int>) -> Option<int>
    decreases i,
{
    if i < 1 {
        acc
    } else if greenish(s[i]) {
        lg_scan(s, i - 1, Some(i))
    } else {
        acc
    }
}

/// The earliest index of the contiguous green-or-doji tail ending at the
/// last candle, never index zero.
pub open spec fn last_green_of(s: Seq<Candle>) -> Option<int> {
    lg_scan(s, s.len() - 1, None)
}

/// The backward pivot scan: from `i` down to one, abort when a raw low
/// breaks below the band, stop at the first smoothed-low valley.
/// `None` aborts; `Some(None)` exhausts; `Some(Some(i))` finds the pivot.
pub open spec fn pivot_scan(s: Seq<Candle>, lows: Seq<i64>, lower: int, i: int) -> Option<
    Option<int>,
>
    decreases i,
{
    if i < 1 {
        Some(None)
    } else if s[i].low < lower {
        None
    } else if lows[i - 1] > lows[i] && lows[i] < lows[i + 1] {
        Some(Some(i))
    } else {
        pivot_scan(s, lows, lower, i - 1)
    }
}

/// The backward approach scan: from `i` down to one, abort when a
/// smoothed low breaks the band, count red candles, stop at the first
/// smoothed-high peak above the level once a red candle has been seen.
pub open spec fn approach_scan(
    s: Seq<Candle>,
    lows: Seq<i64>,
    highs: Seq<i64>,
    lower: int,
    support: int,
    i: int,
    reds: int,
) -> Option<Option<int>>
    decreases i,
{
    if i < 1 {
        Some(None)
    } else if lows[i] < lower {
        None
    } else {
        let reds2 = if s[i].spec_is_red() {
            reds + 1
        } else {
            reds
        };
        if highs[i - 1] < highs[i] && highs[i] > highs[i + 1] && highs[i] > support && reds2
            >= 1 {
            Some(Some(i))
        } else {
            approach_scan(s, lows, highs, lower, support, i - 1, reds2)
        }
    }
}

/// Total volume of the red candles from `from` to the end.
pub open spec fn red_vol(s: Seq<Candle>, from: int) -> int
    decreases s.len() - from,
{
    if from < 0 || from >= s.len() {
        0
    } else if s[from].spec_is_red() {
        s[from].volume + red_vol(s, from + 1)
    } else {
        red_vol(s, from + 1)
    }
}

/// Total volume of the green candles from `from` to the end.
pub open spec fn green_vol(s: Seq<Candle>, from: int) -> int
    decreases s.len() - from,
{
    if from < 0 || from >= s.len() {
        0
    } else if s[from].spec_is_green() {
        s[from].volume + green_vol(s, from + 1)
    } else {
        green_vol(s, from + 1)
    }
}

/// Total volume from `from` to the end.
pub open spec fn vol_from(s: Seq<Candle>, from: int) -> int
    decreases s.len() - from,
{
    if from < 0 || from >= s.len() {
        0
    } else {
        s[from].volume + vol_from(s, from + 1)
    }
}

/// The three-tap kernel the low and high series are smoothed with.
pub open spec fn sr_kernel() -> Seq<u64> {
    seq![106507u64, 786986u64, 106507u64]
}

pub proof fn lemma_sr_kernel_wf()
    ensures
        kernel_wf(sr_kernel()),
{
    let k = sr_kernel();
    assert(ksum(k, 0) == 0);
    assert(ksum(k, 1) == 106507);
    assert(ksum(k, 2) == 893493);
    assert(ksum(k, 3) == KERNEL_SCALE);
}

pub open spec fn low_seq(s: Seq<Candle>) -> Seq<i64> {
    s.map_values(|c: Candle| c.low)
}

pub open spec fn high_seq(s: Seq<Candle>) -> Seq<i64> {
    s.map_values(|c: Candle| c.high)
}

/// What `check_support` finds: the approach index, the pivot index and
/// the imminence flag — or nothing.
pub open spec fn check_support_spec(s: Seq<Candle>, support: i64, atr: i64, permyriad: u32) -> Option<
    (int, int, bool),
> {
    let len = s.len() as int;
    match last_green_of(s) {
        Option::None => None,
        Option::Some(lg) => {
            if !(s[len - 1].spec_is_green() && s[len - 1].close >= support && 2 * abs_i64(
                s[len - 1].close - s[lg].open,
            ) >= atr) {
                None
            } else {
                let band = spec_threshold(support, permyriad) / 2;
                let lower = support - band;
                let upper = support + band;
                let lows = smooth_spec(low_seq(s), sr_kernel());
                let highs = smooth_spec(high_seq(s), sr_kernel());
                match pivot_scan(s, lows, lower, len - 2) {
                    Option::None => None,
                    Option::Some(Option::None) => None,
                    Option::Some(Option::Some(lo)) => {
                        if !(lower <= s[lo].low && s[lo].low <= upper) {
                            None
                        } else {
                            match approach_scan(s, lows, highs, lower, support as int, lo, 0) {
                                Option::None => None,
                                Option::Some(Option::None) => None,
                                Option::Some(Option::Some(hi)) => Some(
                                    (hi, lo, green_vol(s, hi) > red_vol(s, hi)),
                                ),
                            }
                        }
                    },
                }
            }
        },
    }
}

/// The rejection `check_support` builds from the found indices.
pub open spec fn support_rejection(s: Seq<Candle>, support: i64, hi: int, lo: int, imm: bool) -> PriceRejection {
    PriceRejection {
        trend: Trend::Bullish,
        price_level: support,
        arriving_from: s[hi],
        rejected_at: s[lo],
        now: s[s.len() - 1],
        is_imminent: imm,
    }
}

/// Map an `Option<usize>` to the spec-level index option.
pub open spec fn opt_idx(o: Option<usize>) -> Option<int> {
    match o {
        Option::None => None,
        Option::Some(u) => Some(u as int),
    }
}

/// The tail volume equals the volume of the suffix.
proof fn lemma_vol_from_eq_suffix(s: Seq<Candle>, from: int)
    requires
        0 <= from <= s.len(),
    ensures
        vol_from(s, from) == vol_sum(s.skip(from)),
    decreases s.len() - from,
{
    if from == s.len() {
        assert(s.skip(from) =~= Seq::<Candle>::empty());
    } else {
        lemma_vol_from_eq_suffix(s, from + 1);
        assert(s.skip(from) =~= seq![s[from]] + s.skip(from + 1));
        lemma_vol_sum_prepend(s[from], s.skip(from + 1));
    }
}

/// Red and green tail volumes are non-negative and together at most the
/// tail volume; tail volumes shrink as the start moves right.
proof fn lemma_tail_vol_bounds(s: Seq<Candle>, from: int)
    requires
        0 <= from <= s.len(),
    ensures
        0 <= red_vol(s, from),
        0 <= green_vol(s, from),
        red_vol(s, from) + green_vol(s, from) <= vol_from(s, from),
        vol_from(s, from) >= 0,
    decreases s.len() - from,
{
    if from < s.len() {
        lemma_tail_vol_bounds(s, from + 1);
    }
}

/// The whole-log volume bounds every tail volume.
proof fn lemma_vol_from_le_total(s: Seq<Candle>, from: int)
    requires
        0 <= from <= s.len(),
    ensures
        vol_from(s, from) <= vol_sum(s),
{
    lemma_vol_from_eq_suffix(s, from);
    lemma_vol_sum_split(s, from);
    lemma_vol_sum_nonneg(s.take(from));
}

/// Tail volume only shrinks as the start moves right.
proof fn lemma_vol_from_mono(s: Seq<Candle>, a: int, b: int)
    requires
        0 <= a <= b <= s.len(),
    ensures
        vol_from(s, b) <= vol_from(s, a),
    decreases b - a,
{
    if a < b {
        lemma_vol_from_mono(s, a + 1, b);
        lemma_tail_vol_bounds(s, a + 1);
    }
}

/// Detect a support rejection at `support`, with the reference `atr` and
/// the band ratio `permyriad` (a clustering threshold in hundredths of a
/// percent).
///
/// The result is exactly what `check_support_spec` names: `Some` exactly
/// when the tail, body-size, pivot, approach and band conditions all
/// hold, and then the rejection anchored at the found approach and pivot
/// candles with the red/green volume verdict.
#[verifier::rlimit(100)]
pub fn check_support(candles: &Vec<Candle>, support: i64, atr: i64, permyriad: u32) -> (r: Option<
    PriceRejection,
>)
    requires
        candles_in_range(candles@),
        price_ok(support),
        permyriad <= 10000,
        vol_sum(candles@) <= u64::MAX,
    ensures
        match check_support_spec(candles@, support, atr, permyriad) {
            Option::None => r is None,
            Option::Some((hi, lo, imm)) => r == Some(
                support_rejection(candles@, support, hi, lo, imm),
            ),
        },
{
    let ghost s = candles@;
    let len = candles.len();
    // Stage one: the contiguous green-or-doji tail.
    let mut acc: Option<usize> = None;
    let mut ii: usize = len;
    while ii > 1 && (candles[ii - 1].is_green() || candles[ii - 1].is_doji())
        invariant
            0 <= ii <= len,
            len == s.len(),
            s == candles@,
            candles_in_range(s),
            last_green_of(s) == lg_scan(s, ii - 1, opt_idx(acc)),
            acc is Some ==> 1 <= acc.unwrap() < len,
        decreases ii,
    {
        acc = Some(ii - 1);
        ii = ii - 1;
    }
    proof {
        assert(last_green_of(s) == opt_idx(acc));
    }
    let lg = match acc {
        Option::Some(v) => v,
        Option::None => {
            return None;
        },
    };
    // Stage two: the last candle is green, closes at or above the level,
    // and the tail body is at least half the reference range.
    let last = candles[len - 1];
    let diff = if last.close >= candles[lg].open {
        last.close - candles[lg].open
    } else {
        candles[lg].open - last.close
    };
    if !(last.is_green() && last.close >= support && 2 * diff >= atr) {
        return None;
    }
    // Stage three: the band around the level.
    let band = threshold(support, permyriad) / 2;
    let lower = support - band;
    let upper = support + band;
    proof {
        assert(band == spec_threshold(support, permyriad) / 2);
    }
    // Stage four: smoothed lows and highs.
    let mut low_vals: Vec<i64> = Vec::new();
    let mut high_vals: Vec<i64> = Vec::new();
    let mut m: usize = 0;
    while m < len
        invariant
            0 <= m <= len,
            len == s.len(),
            s == candles@,
            candles_in_range(s),
            low_vals@.len() == m,
            high_vals@.len() == m,
            forall|k: int| 0 <= k < m ==> low_vals@[k] == s[k].low,
            forall|k: int| 0 <= k < m ==> high_vals@[k] == s[k].high,
        decreases len - m,
    {
        low_vals.push(candles[m].low);
        high_vals.push(candles[m].high);
        m = m + 1;
    }
    proof {
        assert(low_vals@ =~= low_seq(s));
        assert(high_vals@ =~= high_seq(s));
        assert(prices_in_range(low_vals@));
        assert(prices_in_range(high_vals@));
    }
    let kernel = gaussian_kernel_sigma_half();
    let sl = gaussian_smooth(&low_vals, &kernel);
    let sh = gaussian_smooth(&high_vals, &kernel);
    proof {
        assert(kernel@ =~= sr_kernel());
        assert(sl@ == smooth_spec(low_seq(s), sr_kernel()));
        assert(sh@ == smooth_spec(high_seq(s), sr_kernel()));
    }
    let ghost glows = sl@;
    let ghost ghighs = sh@;
    // Stage five: the pivot low.
    let mut i: usize = len - 2;
    let mut pivot: usize = 0;
    let mut found = false;
    while !found && i >= 1
        invariant
            0 <= i <= len - 2,
            len == s.len(),
            s == candles@,
            candles_in_range(s),
            glows == sl@,
            sl@.len() == len,
            len >= 2,
            1 <= lg < len,
            last_green_of(s) == Some(lg as int),
            s[(len - 1) as int].spec_is_green(),
            s[(len - 1) as int].close >= support,
            2 * abs_i64(s[(len - 1) as int].close - s[lg as int].open) >= atr,
            price_ok(support),
            permyriad <= 10000,
            band == spec_threshold(support, permyriad) / 2,
            lower == support - band,
            upper == support + band,
            ghighs == sh@,
            sh@.len() == len,
            sl@ == smooth_spec(low_seq(s), sr_kernel()),
            sh@ == smooth_spec(high_seq(s), sr_kernel()),
            pivot_scan(s, glows, lower as int, len - 2) == (if found {
                Some(Some(pivot as int))
            } else {
                pivot_scan(s, glows, lower as int, i as int)
            }),
            found ==> 1 <= pivot <= len - 2,
        decreases i + (if found { 0int } else { 1int }),
    {
        if candles[i].low < lower {
            proof {
                assert(pivot_scan(s, glows, lower as int, i as int) is None);
                assert(check_support_spec(s, support, atr, permyriad) is None);
            }
            return None;
        }
        if sl[i - 1] > sl[i] && sl[i] < sl[i + 1] {
            pivot = i;
            found = true;
        } else {
            i = i - 1;
        }
    }
    if !found {
        proof {
            assert(pivot_scan(s, glows, lower as int, 0) == Some(Option::<int>::None));
            assert(check_support_spec(s, support, atr, permyriad) is None);
        }
        return None;
    }
    let lo_idx = pivot;
    if !(lower <= candles[lo_idx].low && candles[lo_idx].low <= upper) {
        return None;
    }
    // Stage six: the approach peak, with at least one red candle seen.
    let mut j: usize = lo_idx;
    let mut reds: usize = 0;
    let mut hi_found = false;
    let mut hi_idx: usize = 0;
    while !hi_found && j >= 1
        invariant
            0 <= j <= lo_idx,
            1 <= lo_idx <= len - 2,
            len == s.len(),
            s == candles@,
            candles_in_range(s),
            glows == sl@,
            sl@.len() == len,
            len >= 2,
            1 <= lg < len,
            last_green_of(s) == Some(lg as int),
            s[(len - 1) as int].spec_is_green(),
            s[(len - 1) as int].close >= support,
            2 * abs_i64(s[(len - 1) as int].close - s[lg as int].open) >= atr,
            price_ok(support),
            permyriad <= 10000,
            band == spec_threshold(support, permyriad) / 2,
            lower == support - band,
            upper == support + band,
            ghighs == sh@,
            sh@.len() == len,
            sl@ == smooth_spec(low_seq(s), sr_kernel()),
            sh@ == smooth_spec(high_seq(s), sr_kernel()),
            hi_found ==> reds <= lo_idx + 1,
            !hi_found ==> reds + j <= lo_idx + 1,
            pivot_scan(s, glows, lower as int, len - 2) == Some(Some(lo_idx as int)),
            lower <= s[lo_idx as int].low && s[lo_idx as int].low <= upper,
            approach_scan(s, glows, ghighs, lower as int, support as int, lo_idx as int, 0) == (
            if hi_found {
                Some(Some(hi_idx as int))
            } else {
                approach_scan(s, glows, ghighs, lower as int, support as int, j as int, reds as int)
            }),
            hi_found ==> 1 <= hi_idx <= lo_idx,
        decreases j + (if hi_found { 0int } else { 1int }),
    {
        if sl[j] < lower {
            proof {
                assert(approach_scan(s, glows, ghighs, lower as int, support as int, j as int, reds as int) is None);
                assert(check_support_spec(s, support, atr, permyriad) is None);
            }
            return None;
        }
        if candles[j].is_red() {
            reds = reds + 1;
        }
        if sh[j - 1] < sh[j] && sh[j] > sh[j + 1] && sh[j] > support && reds >= 1 {
            hi_idx = j;
            hi_found = true;
        } else {
            j = j - 1;
        }
    }
    if !hi_found {
        proof {
            assert(approach_scan(s, glows, ghighs, lower as int, support as int, 0, reds as int)
                == Some(Option::<int>::None));
            assert(check_support_spec(s, support, atr, permyriad) is None);
        }
        return None;
    }
    // Stage seven: the red/green volume balance over the approach.
    let mut red_acc: u64 = 0;
    let mut green_acc: u64 = 0;
    let mut v: usize = len;
    while v > hi_idx
        invariant
            hi_idx <= v <= len,
            1 <= hi_idx <= lo_idx,
            1 <= lo_idx <= len - 2,
            len == s.len(),
            s == candles@,
            candles_in_range(s),
            glows == sl@,
            sl@.len() == len,
            len >= 2,
            1 <= lg < len,
            last_green_of(s) == Some(lg as int),
            s[(len - 1) as int].spec_is_green(),
            s[(len - 1) as int].close >= support,
            2 * abs_i64(s[(len - 1) as int].close - s[lg as int].open) >= atr,
            price_ok(support),
            permyriad <= 10000,
            band == spec_threshold(support, permyriad) / 2,
            lower == support - band,
            upper == support + band,
            ghighs == sh@,
            sh@.len() == len,
            sl@ == smooth_spec(low_seq(s), sr_kernel()),
            sh@ == smooth_spec(high_seq(s), sr_kernel()),
            pivot_scan(s, glows, lower as int, len - 2) == Some(Some(lo_idx as int)),
            lower <= s[lo_idx as int].low && s[lo_idx as int].low <= upper,
            approach_scan(s, glows, ghighs, lower as int, support as int, lo_idx as int, 0)
                == Some(Some(hi_idx as int)),
            vol_sum(s) <= u64::MAX,
            red_acc == red_vol(s, v as int),
            green_acc == green_vol(s, v as int),
        decreases v,
    {
        proof {
            lemma_tail_vol_bounds(s, v - 1);
            lemma_vol_from_le_total(s, v - 1);
        }
        let c = candles[v - 1];
        if c.is_red() {
            red_acc = red_acc + c.volume;
        } else if c.is_green() {
            green_acc = green_acc + c.volume;
        }
        v = v - 1;
        proof {
            assert(red_acc == red_vol(s, v as int));
            assert(green_acc == green_vol(s, v as int));
        }
    }
    let imminent = green_acc > red_acc;
    proof {
        assert(check_support_spec(s, support, atr, permyriad) == Some(
            (hi_idx as int, lo_idx as int, imminent),
        ));
    }
    Some(
        PriceRejection {
            trend: Trend::Bullish,
            price_level: support,
            arriving_from: candles[hi_idx],
            rejected_at: candles[lo_idx],
            now: candles[len - 1],
            is_imminent: imminent,
        },
    )
}

/// A candle sequence mirrored about the zero price.
pub open spec fn invert_seq(s: Seq<Candle>) -> Seq<Candle> {
    s.map_values(|c: Candle| c.spec_invert())
}

/// What `check_resistance` finds: the support check on the mirrored log
/// at the mirrored level, with every candle mapped back.
pub open spec fn check_resistance_spec(s: Seq<Candle>, resistance: i64, atr: i64, permyriad: u32) -> Option<
    PriceRejection,
> {
    match check_support_spec(invert_seq(s), (-resistance) as i64, atr, permyriad) {
        Option::None => None,
        Option::Some((hi, lo, imm)) => Some(
            PriceRejection {
                trend: Trend::Bearish,
                price_level: resistance,
                arriving_from: s[hi],
                rejected_at: s[lo],
                now: s[s.len() - 1],
                is_imminent: imm,
            },
        ),
    }
}

/// Mirroring preserves the total volume.
proof fn lemma_vol_sum_invert(s: Seq<Candle>)
    ensures
        vol_sum(invert_seq(s)) == vol_sum(s),
    decreases s.len(),
{
    if s.len() > 0 {
        assert(invert_seq(s).drop_last() =~= invert_seq(s.drop_last()));
        assert(invert_seq(s).last() == s.last().spec_invert());
        lemma_vol_sum_invert(s.drop_last());
    }
}

/// Detect a resistance rejection: mirror the log, check support at the
/// mirrored level, and mirror the rejection back.
pub fn check_resistance(candles: &Vec<Candle>, resistance: i64, atr: i64, permyriad: u32) -> (r:
    Option<PriceRejection>)
    requires
        candles_in_range(candles@),
        price_ok(resistance),
        permyriad <= 10000,
        vol_sum(candles@) <= u64::MAX,
    ensures
        match check_resistance_spec(candles@, resistance, atr, permyriad) {
            Option::None => r is None,
            Option::Some(pr) => r == Some(pr),
        },
{
    let ghost s = candles@;
    let len = candles.len();
    let mut inv: Vec<Candle> = Vec::new();
    let mut m: usize = 0;
    while m < len
        invariant
            0 <= m <= len,
            len == s.len(),
            s == candles@,
            candles_in_range(s),
            inv@.len() == m,
            forall|k: int| 0 <= k < m ==> inv@[k] == s[k].spec_invert(),
        decreases len - m,
    {
        inv.push(candles[m].invert());
        m = m + 1;
    }
    proof {
        assert(inv@ =~= invert_seq(s));
        assert(candles_in_range(inv@));
        lemma_vol_sum_invert(s);
    }
    let base = check_support(&inv, -resistance, atr, permyriad);
    match base {
        Option::None => None,
        Option::Some(pr) => {
            proof {
                let spec = check_support_spec(invert_seq(s), (-resistance) as i64, atr, permyriad);
                assert(spec is Some);
                let (hi, lo, imm) = spec.unwrap();
                lemma_check_support_indices(invert_seq(s), (-resistance) as i64, atr, permyriad);
                assert(pr.arriving_from == invert_seq(s)[hi]);
                assert(invert_seq(s)[hi] == s[hi].spec_invert());
                crate::candle::lemma_invert_involution(s[hi]);
                crate::candle::lemma_invert_involution(s[lo]);
                crate::candle::lemma_invert_involution(s[s.len() - 1]);
            }
            Some(
                PriceRejection {
                    trend: Trend::Bearish,
                    price_level: resistance,
                    arriving_from: pr.arriving_from.invert(),
                    rejected_at: pr.rejected_at.invert(),
                    now: pr.now.invert(),
                    is_imminent: pr.is_imminent,
                },
            )
        },
    }
}

/// The pivot scan only names an index inside the range it walked.
proof fn lemma_pivot_scan_range(s: Seq<Candle>, lows: Seq<i64>, lower: int, i: int)
    requires
        pivot_scan(s, lows, lower, i) matches Some(o) && o is Some,
    ensures
        1 <= pivot_scan(s, lows, lower, i).unwrap().unwrap() <= i,
    decreases i,
{
    if i >= 1 && !(s[i].low < lower) && !(lows[i - 1] > lows[i] && lows[i] < lows[i + 1]) {
        lemma_pivot_scan_range(s, lows, lower, i - 1);
    }
}

/// The approach scan only names an index inside the range it walked.
proof fn lemma_approach_scan_range(
    s: Seq<Candle>,
    lows: Seq<i64>,
    highs: Seq<i64>,
    lower: int,
    support: int,
    i: int,
    reds: int,
)
    requires
        approach_scan(s, lows, highs, lower, support, i, reds) matches Some(o) && o is Some,
    ensures
        1 <= approach_scan(s, lows, highs, lower, support, i, reds).unwrap().unwrap() <= i,
    decreases i,
{
    if i >= 1 && !(lows[i] < lower) {
        let reds2 = if s[i].spec_is_red() {
            reds + 1
        } else {
            reds
        };
        if !(highs[i - 1] < highs[i] && highs[i] > highs[i + 1] && highs[i] > support && reds2
            >= 1) {
            lemma_approach_scan_range(s, lows, highs, lower, support, i - 1, reds2);
        }
    }
}

/// When the support check succeeds, its approach index is at most its
/// pivot index, and both lie strictly inside the log.
pub proof fn lemma_check_support_indices(s: Seq<Candle>, support: i64, atr: i64, permyriad: u32)
    requires
        check_support_spec(s, support, atr, permyriad) is Some,
    ensures
        ({
            let (hi, lo, imm) = check_support_spec(s, support, atr, permyriad).unwrap();
            1 <= hi <= lo <= s.len() - 2
        }),
{
    let len = s.len() as int;
    let lg = last_green_of(s).unwrap();
    let band = spec_threshold(support, permyriad) / 2;
    let lower = support - band;
    let lows = smooth_spec(low_seq(s), sr_kernel());
    let highs = smooth_spec(high_seq(s), sr_kernel());
    let lo = pivot_scan(s, lows, lower, len - 2).unwrap().unwrap();
    lemma_pivot_scan_range(s, lows, lower, len - 2);
    lemma_approach_scan_range(s, lows, highs, lower, support as int, lo, 0);
}

/// The support/resistance symmetry law: a resistance rejection at a
/// level exists exactly when a support rejection exists on the mirrored
/// candles at the negated level, and then it is that support rejection
/// mapped back — anchor candles mirrored again, the original level and a
/// bearish trend restored, the imminence verdict unchanged.
pub proof fn lemma_sr_symmetry(s: Seq<Candle>, resistance: i64, atr: i64, permyriad: u32)
    requires
        price_ok(resistance),
        candles_in_range(s),
    ensures
        check_resistance_spec(s, resistance, atr, permyriad) is Some <==> check_support_spec(
            invert_seq(s),
            (-resistance) as i64,
            atr,
            permyriad,
        ) is Some,
        check_resistance_spec(s, resistance, atr, permyriad) matches Some(pr) ==> ({
            let (hi, lo, imm) = check_support_spec(
                invert_seq(s),
                (-resistance) as i64,
                atr,
                permyriad,
            ).unwrap();
            let srj = support_rejection(invert_seq(s), (-resistance) as i64, hi, lo, imm);
            &&& pr.trend == Trend::Bearish
            &&& srj.trend == Trend::Bullish
            &&& pr.price_level == resistance
            &&& srj.price_level == -resistance
            &&& pr.arriving_from == srj.arriving_from.spec_invert()
            &&& pr.rejected_at == srj.rejected_at.spec_invert()
            &&& pr.now == srj.now.spec_invert()
            &&& pr.is_imminent == srj.is_imminent
        }),
{
    let spec = check_support_spec(invert_seq(s), (-resistance) as i64, atr, permyriad);
    if spec is Some {
        let (hi, lo, imm) = spec.unwrap();
        lemma_check_support_indices(invert_seq(s), (-resistance) as i64, atr, permyriad);
        crate::candle::lemma_invert_involution(s[hi]);
        crate::candle::lemma_invert_involution(s[lo]);
        crate::candle::lemma_invert_involution(s[s.len() - 1]);
    }
}

} // verus!
