//! Volume analytics primitives: the normalised current-bucket volume and
//! the average volume of earlier buckets at the same time of day. The
//! ratios the chart messages show are these values divided by a baseline
//! the caller picks (an EMA of prior volumes, or the same-time average).

use vstd::prelude::*;

use crate::candle::Candle;
use crate::dataframe::spec_tod_of;

verus! {

/// The normalised volume of an incomplete current bucket: the last
/// bucket's volume scaled by the share of the timeframe that has passed.
/// Nothing when no time has passed.
pub open spec fn normalized_volume_spec(last_volume: u64, tf_secs: i64, now: i64, last_idx: i64) -> Option<i64> {
    if now <= last_idx {
        None
    } else {
        let q = (last_volume * tf_secs) / (now - last_idx);
        Some(
            if q > i64::MAX {
                i64::MAX
            } else {
                q as i64
            },
        )
    }
}

/// Scale the last bucket's volume to a full timeframe:
/// `volume * tf / (now - bucket start)`.
pub fn normalized_volume(last_volume: u64, tf_secs: i64, now: i64, last_idx: i64) -> (r: Option<
    i64,
>)
    requires
        0 < tf_secs <= 4_000_000_000,
        crate::candle::time_ok(now),
        crate::candle::time_ok(last_idx),
    ensures
        r == normalized_volume_spec(last_volume, tf_secs, now, last_idx),
{
    if now <= last_idx {
        return None;
    }
    proof {
        assert((last_volume as int) * (tf_secs as int) <= 18_446_744_073_709_551_615
            * 4_000_000_000) by (nonlinear_arith)
            requires
                last_volume <= 18_446_744_073_709_551_615u64,
                0 < tf_secs <= 4_000_000_000,
        ;
        assert((last_volume as int) * (tf_secs as int) >= 0) by (nonlinear_arith)
            requires
                last_volume >= 0,
                tf_secs >= 0,
        ;
    }
    let num = (last_volume as i128) * (tf_secs as i128);
    let den = (now - last_idx) as i128;
    proof {
        vstd::arithmetic::div_mod::lemma_div_is_ordered(0, num as int, den as int);
        vstd::arithmetic::div_mod::lemma_div_is_ordered(
            num as int,
            80_000_000_000_000_000_000_000_000_000int,
            den as int,
        );
    }
    let q = num / den;
    if q > (i64::MAX as i128) {
        Some(i64::MAX)
    } else {
        Some(q as i64)
    }
}

/// Sum of the volumes of rows before the last whose time of day matches
/// the given one.
pub open spec fn tod_match_sum(times: Seq<i64>, vols: Seq<u64>, tod: int, i: int) -> int
    decreases i,
{
    if i <= 0 {
        0
    } else {
        tod_match_sum(times, vols, tod, i - 1) + if spec_tod_of(times[i - 1]) == tod {
            vols[i - 1] as int
        } else {
            0
        }
    }
}

/// How many rows before the last match the time of day.
pub open spec fn tod_match_count(times: Seq<i64>, tod: int, i: int) -> int
    decreases i,
{
    if i <= 0 {
        0
    } else {
        tod_match_count(times, tod, i - 1) + if spec_tod_of(times[i - 1]) == tod {
            1int
        } else {
            0int
        }
    }
}

/// The average volume of the earlier rows that share the last row's time
/// of day; nothing when no earlier row matches or the frame has fewer
/// than two rows.
pub open spec fn avg_vol_same_tod_spec(times: Seq<i64>, vols: Seq<u64>) -> Option<i64> {
    if times.len() < 2 {
        None
    } else {
        let tod = spec_tod_of(times.last());
        let n = times.len() - 1;
        let cnt = tod_match_count(times, tod, n as int);
        if cnt > 0 {
            Some((tod_match_sum(times, vols, tod, n as int) / cnt) as i64)
        } else {
            None
        }
    }
}

/// Matched sums and counts stay within the totals: the sum is at most
/// the matched count times the largest allowed volume.
proof fn lemma_tod_match_bounds(times: Seq<i64>, vols: Seq<u64>, tod: int, i: int)
    requires
        0 <= i <= times.len(),
        vols.len() == times.len(),
        forall|k: int| 0 <= k < vols.len() ==> (#[trigger] vols[k]) <= i64::MAX,
    ensures
        0 <= tod_match_count(times, tod, i) <= i,
        0 <= tod_match_sum(times, vols, tod, i),
        tod_match_sum(times, vols, tod, i) <= tod_match_count(times, tod, i) * (i64::MAX as int),
    decreases i,
{
    if i > 0 {
        lemma_tod_match_bounds(times, vols, tod, i - 1);
        let c0 = tod_match_count(times, tod, i - 1);
        assert(c0 * (i64::MAX as int) + i64::MAX == (c0 + 1) * (i64::MAX as int))
            by (nonlinear_arith);
    }
}

/// Average the volumes of the earlier rows that share the last row's
/// time of day.
pub fn avg_vol_same_tod(times: &Vec<i64>, vols: &Vec<u64>) -> (r: Option<i64>)
    requires
        times@.len() == vols@.len(),
        forall|k: int| 0 <= k < times@.len() ==> crate::candle::time_ok(#[trigger] times@[k]),
        forall|k: int| 0 <= k < vols@.len() ==> (#[trigger] vols@[k]) <= i64::MAX,
    ensures
        r == avg_vol_same_tod_spec(times@, vols@),
{
    let n = times.len();
    if n < 2 {
        return None;
    }
    let tod = times[n - 1] % crate::dataframe::DAY_SECS;
    let mut total: i128 = 0;
    let mut cnt: i128 = 0;
    let mut i: usize = 0;
    while i < n - 1
        invariant
            0 <= i <= n - 1,
            n == times@.len(),
            n == vols@.len(),
            n >= 2,
            forall|k: int| 0 <= k < times@.len() ==> crate::candle::time_ok(#[trigger] times@[k]),
            forall|k: int| 0 <= k < vols@.len() ==> (#[trigger] vols@[k]) <= i64::MAX,
            tod == spec_tod_of(times@.last()),
            total == tod_match_sum(times@, vols@, tod as int, i as int),
            cnt == tod_match_count(times@, tod as int, i as int),
        decreases n - 1 - i,
    {
        proof {
            lemma_tod_match_bounds(times@, vols@, tod as int, i as int);
            lemma_tod_match_bounds(times@, vols@, tod as int, i + 1);
            let c1 = tod_match_count(times@, tod as int, i + 1);
            assert(c1 * (i64::MAX as int) <= 18_446_744_073_709_551_615 * (i64::MAX as int))
                by (nonlinear_arith)
                requires
                    0 <= c1 <= 18_446_744_073_709_551_615int,
            ;
        }
        if times[i] % crate::dataframe::DAY_SECS == tod {
            total = total + (vols[i] as i128);
            cnt = cnt + 1;
        }
        i = i + 1;
    }
    if cnt > 0 {
        proof {
            lemma_tod_match_bounds(times@, vols@, tod as int, n - 1 as int);
            crate::chart::lemma_div_bound(total as int, cnt as int, i64::MAX as int);
        }
        Some((total / cnt) as i64)
    } else {
        None
    }
}

/// The volumes of a candle sequence.
pub open spec fn vols_of(s: Seq<Candle>) -> Seq<u64> {
    s.map_values(|c: Candle| c.volume)
}

/// Whether a row counts towards a day's session volume: its time of day
/// lies within open hours and at or before the cutoff, when one is
/// given.
pub open spec fn row_counts(c: Candle, os: int, oe: int, cutoff: Option<i64>) -> bool {
    &&& os <= spec_tod_of(c.time) < oe
    &&& (cutoff matches Some(ct) ==> spec_tod_of(c.time) <= ct as int)
}

/// Session volume over the index range `[a, b)`.
pub open spec fn tod_vol_sum(
    s: Seq<Candle>,
    a: int,
    b: int,
    os: int,
    oe: int,
    cutoff: Option<i64>,
) -> int
    decreases b - a,
{
    if a >= b {
        0
    } else {
        (if row_counts(s[a], os, oe, cutoff) {
            s[a].volume as int
        } else {
            0
        }) + tod_vol_sum(s, a + 1, b, os, oe, cutoff)
    }
}

/// The session volume of each qualifying working day, ascending: one
/// entry per day that is a weekday and either spans the minimum working
/// hours or is the log's last day.
pub open spec fn workday_volumes_spec(
    s: Seq<Candle>,
    os: int,
    oe: int,
    span: int,
    cutoff: Option<i64>,
) -> Seq<(i64, i64)>
    decreases s.len(),
    via workday_volumes_spec_decreases
{
    if s.len() == 0 {
        Seq::empty()
    } else {
        let n = crate::dataframe::day_run_len(crate::chart::times_of(s));
        let d = crate::dataframe::spec_day_of(s[0].time);
        let rest = workday_volumes_spec(s.skip(n), os, oe, span, cutoff);
        if !crate::dataframe::spec_is_weekend(d) && (s[n - 1].time - s[0].time >= span || n
            == s.len()) {
            seq![(d as i64, tod_vol_sum(s, 0, n, os, oe, cutoff) as i64)] + rest
        } else {
            rest
        }
    }
}

#[via_fn]
proof fn workday_volumes_spec_decreases(
    s: Seq<Candle>,
    os: int,
    oe: int,
    span: int,
    cutoff: Option<i64>,
) {
    if s.len() > 0 {
        crate::dataframe::lemma_day_run_len_bounds(crate::chart::times_of(s));
    }
}

/// Session volume sums are non-negative and never exceed the plain sum
/// over the same range, hence the whole log's volume.
proof fn lemma_tod_le_range(
    s: Seq<Candle>,
    a: int,
    b: int,
    os: int,
    oe: int,
    cutoff: Option<i64>,
)
    requires
        0 <= a <= b <= s.len(),
    ensures
        tod_vol_sum(s, a, b, os, oe, cutoff) <= crate::chart::v_sum(s, a, b - 1),
        0 <= tod_vol_sum(s, a, b, os, oe, cutoff),
    decreases b - a,
{
    if a < b {
        lemma_tod_le_range(s, a + 1, b, os, oe, cutoff);
        lemma_v_sum_front(s, a, b - 1);
    }
}

/// The closed-range volume sum unfolds at its front.
proof fn lemma_v_sum_front(s: Seq<Candle>, a: int, b: int)
    requires
        a <= b,
    ensures
        crate::chart::v_sum(s, a, b) == s[a].volume + crate::chart::v_sum(s, a + 1, b),
    decreases b - a,
{
    if a == b {
        assert(crate::chart::v_sum(s, a, b) == crate::chart::v_sum(s, a, b - 1)
            + s[b].volume);
        assert(crate::chart::v_sum(s, a, b - 1) == 0);
        assert(crate::chart::v_sum(s, a + 1, b) == 0);
    } else {
        lemma_v_sum_front(s, a, b - 1);
        assert(crate::chart::v_sum(s, a, b) == crate::chart::v_sum(s, a, b - 1)
            + s[b].volume);
        assert(crate::chart::v_sum(s, a + 1, b) == crate::chart::v_sum(s, a + 1, b - 1)
            + s[b].volume);
    }
}

/// Session volume sums stay within the whole log's volume.
proof fn lemma_tod_vol_bounds(
    s: Seq<Candle>,
    a: int,
    b: int,
    os: int,
    oe: int,
    cutoff: Option<i64>,
)
    requires
        0 <= a <= b <= s.len(),
    ensures
        0 <= tod_vol_sum(s, a, b, os, oe, cutoff),
        tod_vol_sum(s, a, b, os, oe, cutoff) <= crate::aggregate::vol_sum(s),
{
    lemma_tod_le_range(s, a, b, os, oe, cutoff);
    if a < b {
        crate::chart::lemma_v_sum_bounds(s, a, b - 1);
    } else {
        crate::aggregate::lemma_vol_sum_nonneg(s);
    }
}

/// Shifting the window start shifts the session sum.
proof fn lemma_tod_shift(
    s: Seq<Candle>,
    i: int,
    a: int,
    b: int,
    os: int,
    oe: int,
    cutoff: Option<i64>,
)
    requires
        0 <= i,
        0 <= a <= b,
        i + b <= s.len(),
    ensures
        tod_vol_sum(s.skip(i), a, b, os, oe, cutoff) == tod_vol_sum(s, i + a, i + b, os, oe, cutoff),
    decreases b - a,
{
    if a < b {
        assert(s.skip(i)[a] == s[i + a]);
        lemma_tod_shift(s, i, a + 1, b, os, oe, cutoff);
    }
}

/// One unfolding of the workday-volume walk at a day boundary.
proof fn lemma_wv_step(
    s: Seq<Candle>,
    os: int,
    oe: int,
    span: int,
    cutoff: Option<i64>,
    i: int,
    j: int,
)
    requires
        0 <= i < j <= s.len(),
        forall|m: int|
            i <= m < j ==> crate::dataframe::spec_day_of(#[trigger] s[m].time)
                == crate::dataframe::spec_day_of(s[i].time),
        j < s.len() ==> crate::dataframe::spec_day_of(s[j].time) != crate::dataframe::spec_day_of(
            s[i].time,
        ),
    ensures
        ({
            let d = crate::dataframe::spec_day_of(s[i].time);
            let rest = workday_volumes_spec(s.skip(j), os, oe, span, cutoff);
            &&& (!crate::dataframe::spec_is_weekend(d) && (s[j - 1].time - s[i].time >= span
                || j == s.len()) ==> workday_volumes_spec(s.skip(i), os, oe, span, cutoff)
                == seq![(d as i64, tod_vol_sum(s, i, j, os, oe, cutoff) as i64)] + rest)
            &&& (!(!crate::dataframe::spec_is_weekend(d) && (s[j - 1].time - s[i].time >= span
                || j == s.len())) ==> workday_volumes_spec(s.skip(i), os, oe, span, cutoff)
                == rest)
        }),
{
    let sk = s.skip(i);
    assert(forall|m: int| 0 <= m < sk.len() ==> #[trigger] sk[m] == s[m + i]);
    let tsk = crate::chart::times_of(sk);
    assert(forall|m: int| 0 <= m < tsk.len() ==> #[trigger] tsk[m] == s[m + i].time);
    crate::dataframe::lemma_day_run_len_eq(tsk, j - i);
    assert(sk.skip(j - i) =~= s.skip(j));
    assert(sk[0] == s[i]);
    assert(sk[j - i - 1] == s[j - 1]);
    lemma_tod_shift(s, i, 0, j - i, os, oe, cutoff);
}

/// Compute the session volume of each qualifying working day: weekdays
/// whose rows span the working-hours minimum (the log's last day is
/// exempt), summing the rows inside open hours, at or before the cutoff
/// time of day when one is given.
pub fn workday_volumes(
    candles: &Vec<Candle>,
    open_start: i64,
    open_end: i64,
    min_span: i64,
    cutoff: Option<i64>,
) -> (out: Vec<(i64, i64)>)
    requires
        crate::aggregate::candles_in_range(candles@),
        crate::aggregate::times_sorted(candles@),
        crate::aggregate::vol_sum(candles@) <= i64::MAX,
    ensures
        out@ == workday_volumes_spec(
            candles@,
            open_start as int,
            open_end as int,
            min_span as int,
            cutoff,
        ),
        forall|k: int|
            0 <= k < out@.len() ==> 0 <= (#[trigger] out@[k]).1 <= crate::aggregate::vol_sum(
                candles@,
            ),
{
    let ghost s = candles@;
    let ghost os = open_start as int;
    let ghost oe = open_end as int;
    let ghost span = min_span as int;
    let len = candles.len();
    let mut out: Vec<(i64, i64)> = Vec::new();
    let mut i: usize = 0;
    proof {
        assert(s.skip(0) =~= s);
        assert(out@ + workday_volumes_spec(s, os, oe, span, cutoff) =~= workday_volumes_spec(
            s,
            os,
            oe,
            span,
            cutoff,
        ));
    }
    while i < len
        invariant
            0 <= i <= len,
            len == s.len(),
            s == candles@,
            os == open_start as int,
            oe == open_end as int,
            span == min_span as int,
            crate::aggregate::candles_in_range(s),
            crate::aggregate::times_sorted(s),
            crate::aggregate::vol_sum(s) <= i64::MAX,
            workday_volumes_spec(s, os, oe, span, cutoff) == out@ + workday_volumes_spec(
                s.skip(i as int),
                os,
                oe,
                span,
                cutoff,
            ),
            forall|k: int|
                0 <= k < out@.len() ==> 0 <= (#[trigger] out@[k]).1 <= crate::aggregate::vol_sum(
                    s,
                ),
        decreases len - i,
    {
        let day_i = candles[i].time / crate::dataframe::DAY_SECS;
        let mut j: usize = i + 1;
        while j < len && candles[j].time / crate::dataframe::DAY_SECS == day_i
            invariant
                i < j <= len,
                i < len,
                len == s.len(),
                s == candles@,
                crate::aggregate::candles_in_range(s),
                day_i == crate::dataframe::spec_day_of(s[i as int].time),
                forall|m: int|
                    i <= m < j ==> crate::dataframe::spec_day_of(#[trigger] s[m].time)
                        == crate::dataframe::spec_day_of(s[i as int].time),
            decreases len - j,
        {
            j = j + 1;
        }
        // Sum the session rows of the run.
        let mut acc: i64 = 0;
        let mut m: usize = i;
        while m < j
            invariant
                i <= m <= j <= len,
                len == s.len(),
                s == candles@,
                crate::aggregate::candles_in_range(s),
                crate::aggregate::vol_sum(s) <= i64::MAX,
                os == open_start as int,
                oe == open_end as int,
                acc == tod_vol_sum(s, i as int, m as int, os, oe, cutoff),
            decreases j - m,
        {
            proof {
                lemma_tod_vol_bounds(s, i as int, m as int, os, oe, cutoff);
                lemma_tod_vol_bounds(s, i as int, m + 1, os, oe, cutoff);
                lemma_tod_sum_step(s, i as int, m as int, os, oe, cutoff);
            }
            let c = candles[m];
            let tod = c.time % crate::dataframe::DAY_SECS;
            let counts = open_start <= tod && tod < open_end && match cutoff {
                Option::Some(ct) => tod <= ct,
                Option::None => true,
            };
            if counts {
                acc = acc + (c.volume as i64);
            }
            m = m + 1;
        }
        proof {
            lemma_wv_step(s, os, oe, span, cutoff, i as int, j as int);
            lemma_tod_vol_bounds(s, i as int, j as int, os, oe, cutoff);
        }
        let weekday = (day_i + 3) % 7;
        let qualifies = weekday != 5 && weekday != 6 && (candles[j - 1].time - candles[i].time
            >= min_span || j == len);
        let ghost prev = out@;
        if qualifies {
            out.push((day_i, acc));
            proof {
                assert(out@ =~= prev.push(
                    (crate::dataframe::spec_day_of(s[i as int].time) as i64, acc),
                ));
                assert((prev.push(
                    (crate::dataframe::spec_day_of(s[i as int].time) as i64, acc),
                )) + workday_volumes_spec(s.skip(j as int), os, oe, span, cutoff) =~= prev + (seq![
                    (crate::dataframe::spec_day_of(s[i as int].time) as i64, acc),
                ] + workday_volumes_spec(s.skip(j as int), os, oe, span, cutoff)));
            }
        }
        i = j;
    }
    proof {
        assert(s.skip(len as int) =~= Seq::<Candle>::empty());
        assert(out@ + Seq::<(i64, i64)>::empty() =~= out@);
    }
    out
}

/// A session sum grows by one row at a time.
proof fn lemma_tod_sum_step(s: Seq<Candle>, a: int, m: int, os: int, oe: int, cutoff: Option<i64>)
    requires
        0 <= a <= m < s.len(),
    ensures
        tod_vol_sum(s, a, m + 1, os, oe, cutoff) == tod_vol_sum(s, a, m, os, oe, cutoff) + (
        if row_counts(s[m], os, oe, cutoff) {
            s[m].volume as int
        } else {
            0
        }),
    decreases m - a,
{
    let v = if row_counts(s[m], os, oe, cutoff) {
        s[m].volume as int
    } else {
        0
    };
    if a == m {
        assert(tod_vol_sum(s, a, m + 1, os, oe, cutoff) == v + tod_vol_sum(
            s,
            a + 1,
            m + 1,
            os,
            oe,
            cutoff,
        ));
        assert(tod_vol_sum(s, a + 1, m + 1, os, oe, cutoff) == 0);
        assert(tod_vol_sum(s, a, m, os, oe, cutoff) == 0);
    } else {
        lemma_tod_sum_step(s, a + 1, m, os, oe, cutoff);
        assert(tod_vol_sum(s, a, m + 1, os, oe, cutoff) == (if row_counts(s[a], os, oe, cutoff) {
            s[a].volume as int
        } else {
            0
        }) + tod_vol_sum(s, a + 1, m + 1, os, oe, cutoff));
        assert(tod_vol_sum(s, a, m, os, oe, cutoff) == (if row_counts(s[a], os, oe, cutoff) {
            s[a].volume as int
        } else {
            0
        }) + tod_vol_sum(s, a + 1, m, os, oe, cutoff));
    }
}

/// Sum of the session volumes of a day list.
pub open spec fn pair_sum(dv: Seq<(i64, i64)>) -> int
    decreases dv.len(),
{
    if dv.len() == 0 {
        0
    } else {
        pair_sum(dv.drop_last()) + dv.last().1
    }
}

/// A bounded-entry day list has a bounded sum.
proof fn lemma_pair_sum_bounds(dv: Seq<(i64, i64)>, bound: int)
    requires
        bound >= 0,
        forall|k: int| 0 <= k < dv.len() ==> 0 <= (#[trigger] dv[k]).1 <= bound,
    ensures
        0 <= pair_sum(dv) <= dv.len() * bound,
    decreases dv.len(),
{
    if dv.len() > 0 {
        assert(forall|k: int|
            0 <= k < dv.len() - 1 ==> #[trigger] dv.drop_last()[k] == dv[k]);
        lemma_pair_sum_bounds(dv.drop_last(), bound);
        assert((dv.len() - 1) * bound + bound == dv.len() * bound) by (nonlinear_arith);
    }
}

/// Today's session volume so far against the average same-prefix volume
/// of the earlier qualifying working days: nothing when today is not a
/// working day or no earlier day qualifies.
pub open spec fn daily_avg_vol_until_now_spec(
    s: Seq<Candle>,
    os: int,
    oe: int,
    span: int,
) -> Option<(i64, i64)> {
    if s.len() == 0 {
        None
    } else {
        let ct = spec_tod_of(s.last().time) as i64;
        let dv = workday_volumes_spec(s, os, oe, span, Some(ct));
        if dv.len() > 0 && dv.last().0 as int == crate::dataframe::spec_day_of(s.last().time) {
            let others = dv.drop_last();
            if others.len() == 0 {
                None
            } else {
                Some((dv.last().1, (pair_sum(others) / others.len() as int) as i64))
            }
        } else {
            None
        }
    }
}

/// Compute today's session volume so far and the same-prefix average of
/// the earlier qualifying working days.
pub fn daily_avg_vol_until_now(
    candles: &Vec<Candle>,
    open_start: i64,
    open_end: i64,
    min_span: i64,
) -> (r: Option<(i64, i64)>)
    requires
        crate::aggregate::candles_in_range(candles@),
        crate::aggregate::times_sorted(candles@),
        crate::aggregate::vol_sum(candles@) <= i64::MAX,
        candles@.len() < 1_000_000,
    ensures
        r == daily_avg_vol_until_now_spec(
            candles@,
            open_start as int,
            open_end as int,
            min_span as int,
        ),
{
    let ghost s = candles@;
    let n = candles.len();
    if n == 0 {
        return None;
    }
    let last = candles[n - 1];
    let ct = last.time % crate::dataframe::DAY_SECS;
    let dv = workday_volumes(candles, open_start, open_end, min_span, Some(ct));
    proof {
        lemma_wv_len(s, open_start as int, open_end as int, min_span as int, Some(ct));
    }
    if dv.len() == 0 || dv[dv.len() - 1].0 != last.time / crate::dataframe::DAY_SECS {
        return None;
    }
    if dv.len() == 1 {
        return None;
    }
    let today = dv[dv.len() - 1].1;
    let m = dv.len() - 1;
    let mut total: i128 = 0;
    let mut k: usize = 0;
    proof {
        assert(dv@.drop_last().take(0) =~= Seq::<(i64, i64)>::empty());
    }
    while k < m
        invariant
            0 <= k <= m,
            m == dv@.len() - 1,
            m < 1_000_000,
            forall|q: int|
                0 <= q < dv@.len() ==> 0 <= (#[trigger] dv@[q]).1 <= i64::MAX,
            total == pair_sum(dv@.drop_last().take(k as int)),
            0 <= total,
        decreases m - k,
    {
        proof {
            assert(dv@.drop_last().take(k + 1).drop_last() =~= dv@.drop_last().take(k as int));
            assert(dv@.drop_last().take(k + 1).last() == dv@[k as int]);
            assert(forall|q: int|
                0 <= q < dv@.len() - 1 ==> #[trigger] dv@.drop_last()[q] == dv@[q]);
            lemma_pair_sum_bounds_prefix(dv@.drop_last(), k as int);
        }
        total = total + (dv[k].1 as i128);
        k = k + 1;
    }
    proof {
        assert(dv@.drop_last().take(m as int) =~= dv@.drop_last());
        assert(forall|q: int|
            0 <= q < dv@.len() - 1 ==> #[trigger] dv@.drop_last()[q] == dv@[q]);
        lemma_pair_sum_bounds(dv@.drop_last(), i64::MAX as int);
        crate::chart::lemma_div_bound(total as int, m as int, i64::MAX as int);
    }
    let avg = (total / (m as i128)) as i64;
    Some((today, avg))
}

/// Prefix sums of a bounded day list stay bounded.
proof fn lemma_pair_sum_bounds_prefix(dv: Seq<(i64, i64)>, k: int)
    requires
        0 <= k < dv.len(),
        forall|q: int| 0 <= q < dv.len() ==> 0 <= (#[trigger] dv[q]).1 <= i64::MAX,
    ensures
        0 <= pair_sum(dv.take(k)) <= k * (i64::MAX as int),
        0 <= pair_sum(dv.take(k + 1)) <= (k + 1) * (i64::MAX as int),
{
    assert(forall|q: int| 0 <= q < k ==> #[trigger] dv.take(k)[q] == dv[q]);
    assert(forall|q: int| 0 <= q < k + 1 ==> #[trigger] dv.take(k + 1)[q] == dv[q]);
    lemma_pair_sum_bounds(dv.take(k), i64::MAX as int);
    lemma_pair_sum_bounds(dv.take(k + 1), i64::MAX as int);
}

/// The day lists never outgrow the log.
proof fn lemma_wv_len(s: Seq<Candle>, os: int, oe: int, span: int, cutoff: Option<i64>)
    ensures
        workday_volumes_spec(s, os, oe, span, cutoff).len() <= s.len(),
    decreases s.len(),
{
    if s.len() > 0 {
        crate::dataframe::lemma_day_run_len_bounds(crate::chart::times_of(s));
        let n = crate::dataframe::day_run_len(crate::chart::times_of(s));
        lemma_wv_len(s.skip(n), os, oe, span, cutoff);
    }
}

/// The average full-session volume of the qualifying working days before
/// the log's last day; zero with no such day.
pub open spec fn daily_avg_volume_spec(s: Seq<Candle>, os: int, oe: int, span: int) -> i64 {
    if s.len() == 0 {
        0
    } else {
        let dv = workday_volumes_spec(s, os, oe, span, None);
        let prior = dv.filter(
            |e: (i64, i64)| (e.0 as int) < crate::dataframe::spec_day_of(s.last().time),
        );
        if prior.len() == 0 {
            0
        } else {
            (pair_sum(prior) / prior.len() as int) as i64
        }
    }
}

/// Compute the average full-session volume of the qualifying working
/// days before the log's last day.
pub fn daily_avg_volume(
    candles: &Vec<Candle>,
    open_start: i64,
    open_end: i64,
    min_span: i64,
) -> (r: i64)
    requires
        crate::aggregate::candles_in_range(candles@),
        crate::aggregate::times_sorted(candles@),
        crate::aggregate::vol_sum(candles@) <= i64::MAX,
        candles@.len() < 1_000_000,
    ensures
        r == daily_avg_volume_spec(candles@, open_start as int, open_end as int, min_span as int),
{
    let ghost s = candles@;
    let n = candles.len();
    if n == 0 {
        return 0;
    }
    let last_day = candles[n - 1].time / crate::dataframe::DAY_SECS;
    let dv = workday_volumes(candles, open_start, open_end, min_span, None);
    proof {
        lemma_wv_len(s, open_start as int, open_end as int, min_span as int, None);
    }
    let ghost pred = |e: (i64, i64)| (e.0 as int) < crate::dataframe::spec_day_of(
        s.last().time,
    );
    let mut total: i128 = 0;
    let mut count: i64 = 0;
    let mut k: usize = 0;
    proof {
        reveal(Seq::filter);
        assert(dv@.take(0).filter(pred) =~= Seq::<(i64, i64)>::empty());
    }
    while k < dv.len()
        invariant
            0 <= k <= dv@.len(),
            dv@.len() < 1_000_000,
            last_day as int == crate::dataframe::spec_day_of(s.last().time),
            pred == (|e: (i64, i64)| (e.0 as int) < crate::dataframe::spec_day_of(
                s.last().time,
            )),
            forall|q: int| 0 <= q < dv@.len() ==> 0 <= (#[trigger] dv@[q]).1 <= i64::MAX,
            count == dv@.take(k as int).filter(pred).len(),
            total == pair_sum(dv@.take(k as int).filter(pred)),
            0 <= total,
            0 <= count <= k,
        decreases dv@.len() - k,
    {
        proof {
            reveal(Seq::filter);
            assert(dv@.take(k + 1).drop_last() =~= dv@.take(k as int));
            assert(dv@.take(k + 1).last() == dv@[k as int]);
            let f = dv@.take(k as int).filter(pred);
            lemma_filtered_pairs_bounded(dv@, pred, k as int);
            lemma_pair_sum_bounds(f, i64::MAX as int);
        }
        let e = dv[k];
        if e.0 < last_day {
            total = total + (e.1 as i128);
            count = count + 1;
            proof {
                assert(dv@.take(k + 1).filter(pred) =~= dv@.take(k as int).filter(pred).push(
                    dv@[k as int],
                ));
                assert(dv@.take(k + 1).filter(pred).drop_last() =~= dv@.take(k as int).filter(
                    pred,
                ));
                assert(dv@.take(k + 1).filter(pred).last() == dv@[k as int]);
            }
        } else {
            proof {
                assert(dv@.take(k + 1).filter(pred) =~= dv@.take(k as int).filter(pred));
            }
        }
        k = k + 1;
    }
    proof {
        assert(dv@.take(dv@.len() as int) =~= dv@);
    }
    if count == 0 {
        return 0;
    }
    proof {
        reveal(Seq::filter);
        lemma_filtered_pairs_bounded(dv@, pred, dv@.len() as int);
        lemma_pair_sum_bounds(dv@.filter(pred), i64::MAX as int);
        crate::chart::lemma_div_bound(total as int, count as int, i64::MAX as int);
    }
    (total / (count as i128)) as i64
}

/// Filtered prefixes of a bounded day list keep entries bounded.
proof fn lemma_filtered_pairs_bounded(
    dv: Seq<(i64, i64)>,
    pred: spec_fn((i64, i64)) -> bool,
    k: int,
)
    requires
        0 <= k <= dv.len(),
        forall|q: int| 0 <= q < dv.len() ==> 0 <= (#[trigger] dv[q]).1 <= i64::MAX,
    ensures
        forall|q: int|
            0 <= q < dv.take(k).filter(pred).len() ==> 0 <= (#[trigger] dv.take(k).filter(
                pred,
            )[q]).1 <= i64::MAX,
        dv.take(k).filter(pred).len() <= k,
{
    broadcast use vstd::seq_lib::group_filter_ensures;

    assert(forall|q: int| 0 <= q < k ==> #[trigger] dv.take(k)[q] == dv[q]);
    let f = dv.take(k).filter(pred);
    assert forall|q: int|
        0 <= q < f.len() implies 0 <= (#[trigger] f[q]).1 <= i64::MAX by {
        lemma_filter_elem_from(dv.take(k), pred, q);
    }
}

/// Every filtered element comes from the source.
proof fn lemma_filter_elem_from(s: Seq<(i64, i64)>, pred: spec_fn((i64, i64)) -> bool, q: int)
    requires
        0 <= q < s.filter(pred).len(),
    ensures
        exists|w: int| 0 <= w < s.len() && #[trigger] s[w] == s.filter(pred)[q],
    decreases s.len(),
{
    reveal(Seq::filter);
    if s.len() > 0 {
        let f = s.filter(pred);
        let fd = s.drop_last().filter(pred);
        if pred(s.last()) && q == f.len() - 1 {
            assert(s[s.len() - 1] == f[q]);
        } else {
            lemma_filter_elem_from(s.drop_last(), pred, q);
            let w = choose|w: int|
                0 <= w < s.drop_last().len() && #[trigger] s.drop_last()[w] == fd[q];
            assert(s[w] == s.filter(pred)[q]);
        }
    }
}

/// One volume analysis attached to a chart update, as plain values; the
/// presentation layer renders the human-readable text.
#[derive(Clone, Copy, Debug, PartialEq, Eq, Structural)]
pub enum VolumeMessage {
    /// The normalised current-bucket volume against the EMA baseline of
    /// the prior buckets' volumes.
    Rvol { normalized: i64, baseline: i64 },
    /// The normalised current-bucket volume against the average volume
    /// of the prior same-time-of-day buckets.
    CurTimeRvol { normalized: i64, average: i64 },
    /// Today's session volume so far against the same-prefix average of
    /// the earlier working days.
    DailyVolume { today: i64, other_days_avg: i64 },
    /// The predictor's expected daily total against the daily average.
    DailyPrediction { predicted: i64, daily_avg: i64 },
    /// No trained predictor was available to this update.
    PredictorUnavailable,
}

} // verus!
