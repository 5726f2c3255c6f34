//! Time-bucket aggregation: raw candles are grouped by
//! `floor(time / tf) * tf` and each group is folded into one candle per
//! bucket — open from the first, close from the last, high and low as the
//! extremes, volume as the sum. Buckets whose total volume is zero are
//! dropped.

use vstd::arithmetic::div_mod::{
    lemma_div_is_ordered, lemma_div_multiples_vanish, lemma_fundamental_div_mod, lemma_mod_bound,
};
use vstd::arithmetic::mul::{lemma_mul_inequality, lemma_mul_is_commutative};
use vstd::prelude::*;

use crate::candle::{price_ok, time_ok, Candle};

verus! {

/// The bucket a time falls in: the largest multiple of `tf` at most `t`
/// (for non-negative `t`).
pub open spec fn bucket_key(t: int, tf: int) -> int
    recommends
        tf > 0,
{
    (t / tf) * tf
}

/// Prices in range and a non-negative instant, for every candle the
/// aggregation reads.
pub open spec fn candle_in_range(c: Candle) -> bool {
    &&& price_ok(c.open)
    &&& price_ok(c.low)
    &&& price_ok(c.high)
    &&& price_ok(c.close)
    &&& c.time >= 0
}

pub open spec fn candles_in_range(s: Seq<Candle>) -> bool {
    forall|i: int| 0 <= i < s.len() ==> candle_in_range(#[trigger] s[i])
}

/// Candle times never decrease along the log.
pub open spec fn times_sorted(s: Seq<Candle>) -> bool {
    forall|i: int, j: int| 0 <= i < j < s.len() ==> s[i].time <= s[j].time
}

/// A healthy candle log: every candle well-formed with in-range prices,
/// an engine-range instant and a volume that fits a signed word; times
/// never decreasing; the total volume within bounds.
pub open spec fn log_wf(s: Seq<Candle>) -> bool {
    &&& candles_in_range(s)
    &&& times_sorted(s)
    &&& vol_sum(s) <= i64::MAX
    &&& forall|i: int| 0 <= i < s.len() ==> (#[trigger] s[i]).wf()
    &&& forall|i: int| 0 <= i < s.len() ==> time_ok((#[trigger] s[i]).time)
    &&& forall|i: int| 0 <= i < s.len() ==> (#[trigger] s[i]).volume <= i64::MAX
    &&& forall|i: int| 0 <= i < s.len() ==> (#[trigger] s[i]).duration <= 4_000_000_000
}

/// Every bucket key of the sequence lies between zero and its time.
pub open spec fn keys_in_range(s: Seq<Candle>, tf: int) -> bool {
    forall|m: int|
        0 <= m < s.len() ==> 0 <= bucket_key(#[trigger] s[m].time as int, tf) <= s[m].time
}

pub proof fn lemma_keys_in_range(s: Seq<Candle>, tf: int)
    requires
        candles_in_range(s),
        tf > 0,
    ensures
        keys_in_range(s, tf),
{
    assert forall|m: int|
        0 <= m < s.len() implies 0 <= bucket_key(#[trigger] s[m].time as int, tf)
        <= s[m].time by {
        lemma_bucket_key_range(s[m].time as int, tf);
    }
}

/// Total volume of a candle sequence.
pub open spec fn vol_sum(s: Seq<Candle>) -> int
    decreases s.len(),
{
    if s.len() == 0 {
        0
    } else {
        vol_sum(s.drop_last()) + s.last().volume
    }
}

/// The largest high of a non-empty candle sequence.
pub open spec fn high_max(s: Seq<Candle>) -> int
    recommends
        s.len() > 0,
    decreases s.len(),
{
    if s.len() <= 1 {
        s[0].high as int
    } else if high_max(s.drop_last()) >= s.last().high {
        high_max(s.drop_last())
    } else {
        s.last().high as int
    }
}

/// The smallest low of a non-empty candle sequence.
pub open spec fn low_min(s: Seq<Candle>) -> int
    recommends
        s.len() > 0,
    decreases s.len(),
{
    if s.len() <= 1 {
        s[0].low as int
    } else if low_min(s.drop_last()) <= s.last().low {
        low_min(s.drop_last())
    } else {
        s.last().low as int
    }
}

/// The aggregated candle of one non-empty bucket group.
pub open spec fn bucket_candle(group: Seq<Candle>, key: int, tf: int) -> Candle
    recommends
        group.len() > 0,
{
    Candle {
        time: key as i64,
        open: group[0].open,
        close: group.last().close,
        high: high_max(group) as i64,
        low: low_min(group) as i64,
        volume: vol_sum(group) as u64,
        duration: tf as i64,
    }
}

/// Length of the initial run of candles that share the first candle's
/// bucket key.
pub open spec fn run_len(s: Seq<Candle>, tf: int) -> int
    decreases s.len(),
{
    if s.len() == 0 {
        0
    } else if s.len() == 1 {
        1
    } else if bucket_key(s[1].time as int, tf) == bucket_key(s[0].time as int, tf) {
        1 + run_len(s.skip(1), tf)
    } else {
        1
    }
}

/// The aggregation of a time-sorted candle sequence: one candle per
/// bucket, zero-volume buckets dropped.
pub open spec fn agg_spec(s: Seq<Candle>, tf: int) -> Seq<Candle>
    decreases s.len(),
    via agg_spec_decreases
{
    if s.len() == 0 {
        Seq::empty()
    } else {
        let n = run_len(s, tf);
        let b = bucket_candle(s.take(n), bucket_key(s[0].time as int, tf), tf);
        let rest = agg_spec(s.skip(n), tf);
        if b.volume > 0 {
            seq![b] + rest
        } else {
            rest
        }
    }
}

#[via_fn]
proof fn agg_spec_decreases(s: Seq<Candle>, tf: int) {
    if s.len() > 0 {
        lemma_run_len_bounds(s, tf);
    }
}

/// The initial run is non-empty, shares one bucket key throughout, and is
/// maximal.
pub proof fn lemma_run_len_bounds(s: Seq<Candle>, tf: int)
    requires
        s.len() > 0,
    ensures
        1 <= run_len(s, tf) <= s.len(),
        forall|m: int|
            0 <= m < run_len(s, tf) ==> bucket_key(#[trigger] s[m].time as int, tf) == bucket_key(
                s[0].time as int,
                tf,
            ),
        run_len(s, tf) < s.len() ==> bucket_key(s[run_len(s, tf)].time as int, tf) != bucket_key(
            s[0].time as int,
            tf,
        ),
    decreases s.len(),
{
    if s.len() > 1 && bucket_key(s[1].time as int, tf) == bucket_key(s[0].time as int, tf) {
        lemma_run_len_bounds(s.skip(1), tf);
        assert(forall|m: int| 0 <= m < s.skip(1).len() ==> #[trigger] s.skip(1)[m] == s[m + 1]);
        let r1 = run_len(s.skip(1), tf);
        assert forall|m: int|
            0 <= m < run_len(s, tf) implies bucket_key(#[trigger] s[m].time as int, tf)
            == bucket_key(s[0].time as int, tf) by {
            if m >= 1 {
                assert(s[m] == s.skip(1)[m - 1]);
                assert(bucket_key(s.skip(1)[m - 1].time as int, tf) == bucket_key(
                    s.skip(1)[0].time as int,
                    tf,
                ));
            }
        }
        if run_len(s, tf) < s.len() {
            assert(s[run_len(s, tf)] == s.skip(1)[r1]);
        }
    }
}

/// Any length of a run of one key that is followed by a different key (or
/// the end) equals `run_len`.
pub proof fn lemma_run_len_eq(s: Seq<Candle>, tf: int, n: int)
    requires
        1 <= n <= s.len(),
        forall|m: int|
            0 <= m < n ==> bucket_key(#[trigger] s[m].time as int, tf) == bucket_key(
                s[0].time as int,
                tf,
            ),
        n < s.len() ==> bucket_key(s[n].time as int, tf) != bucket_key(s[0].time as int, tf),
    ensures
        run_len(s, tf) == n,
{
    lemma_run_len_bounds(s, tf);
    let r = run_len(s, tf);
    if n < r {
        assert(bucket_key(s[n].time as int, tf) == bucket_key(s[0].time as int, tf));
    } else if r < n {
        assert(bucket_key(s[r].time as int, tf) == bucket_key(s[0].time as int, tf));
    }
}

/// Total volume splits at any cut point.
pub proof fn lemma_vol_sum_split(s: Seq<Candle>, k: int)
    requires
        0 <= k <= s.len(),
    ensures
        vol_sum(s) == vol_sum(s.take(k)) + vol_sum(s.skip(k)),
    decreases s.len(),
{
    if s.len() == 0 {
        assert(s.take(k) =~= s);
        assert(s.skip(k) =~= s);
    } else if k == s.len() {
        assert(s.take(k) =~= s);
        assert(s.skip(k) =~= Seq::<Candle>::empty());
    } else {
        lemma_vol_sum_split(s.drop_last(), k);
        assert(s.take(k) =~= s.drop_last().take(k));
        assert(s.skip(k).drop_last() =~= s.drop_last().skip(k));
        assert(s.skip(k).last() == s.last());
    }
}

/// Prepending one candle adds its volume to the total.
pub proof fn lemma_vol_sum_prepend(c: Candle, s: Seq<Candle>)
    ensures
        vol_sum(seq![c] + s) == c.volume + vol_sum(s),
    decreases s.len(),
{
    assert(vol_sum(Seq::<Candle>::empty()) == 0);
    if s.len() == 0 {
        assert((seq![c] + s) =~= seq![c]);
        assert(seq![c].drop_last() =~= Seq::<Candle>::empty());
        assert(vol_sum(seq![c]) == vol_sum(seq![c].drop_last()) + c.volume);
    } else {
        assert((seq![c] + s).drop_last() =~= seq![c] + s.drop_last());
        assert((seq![c] + s).last() == s.last());
        lemma_vol_sum_prepend(c, s.drop_last());
    }
}

/// Total volume is non-negative.
pub proof fn lemma_vol_sum_nonneg(s: Seq<Candle>)
    ensures
        vol_sum(s) >= 0,
    decreases s.len(),
{
    if s.len() > 0 {
        lemma_vol_sum_nonneg(s.drop_last());
    }
}

/// The volume of any slice is at most the total.
pub proof fn lemma_vol_sum_subrange_le(s: Seq<Candle>, a: int, b: int)
    requires
        0 <= a <= b <= s.len(),
    ensures
        0 <= vol_sum(s.subrange(a, b)) <= vol_sum(s),
{
    lemma_vol_sum_split(s, b);
    lemma_vol_sum_split(s.take(b), a);
    assert(s.take(b).skip(a) =~= s.subrange(a, b));
    lemma_vol_sum_nonneg(s.subrange(a, b));
    lemma_vol_sum_nonneg(s.take(b).take(a));
    lemma_vol_sum_nonneg(s.skip(b));
}

/// The extreme folds are attained within the prices they fold over and
/// bound every one of them.
pub proof fn lemma_fold_bounds(s: Seq<Candle>)
    requires
        s.len() > 0,
    ensures
        forall|m: int| 0 <= m < s.len() ==> #[trigger] s[m].high <= high_max(s),
        forall|m: int| 0 <= m < s.len() ==> low_min(s) <= #[trigger] s[m].low,
        exists|m: int| 0 <= m < s.len() && high_max(s) == #[trigger] s[m].high,
        exists|m: int| 0 <= m < s.len() && low_min(s) == #[trigger] s[m].low,
    decreases s.len(),
{
    if s.len() == 1 {
        assert(high_max(s) == s[0].high);
        assert(low_min(s) == s[0].low);
    } else {
        lemma_fold_bounds(s.drop_last());
        assert(forall|m: int| 0 <= m < s.len() - 1 ==> #[trigger] s.drop_last()[m] == s[m]);
        assert forall|m: int| 0 <= m < s.len() implies #[trigger] s[m].high <= high_max(s) by {
            if m < s.len() - 1 {
                assert(s[m].high == s.drop_last()[m].high);
                assert(s.drop_last()[m].high <= high_max(s.drop_last()));
            }
        }
        assert forall|m: int| 0 <= m < s.len() implies low_min(s) <= #[trigger] s[m].low by {
            if m < s.len() - 1 {
                assert(s[m].low == s.drop_last()[m].low);
                assert(low_min(s.drop_last()) <= s.drop_last()[m].low);
            }
        }
        if high_max(s.drop_last()) >= s.last().high {
            let ghost w = choose|m: int|
                0 <= m < s.len() - 1 && high_max(s.drop_last()) == s.drop_last()[m].high;
            assert(high_max(s) == s[w].high);
        } else {
            assert(high_max(s) == s[s.len() - 1].high);
        }
        if low_min(s.drop_last()) <= s.last().low {
            let ghost w = choose|m: int|
                0 <= m < s.len() - 1 && low_min(s.drop_last()) == s.drop_last()[m].low;
            assert(low_min(s) == s[w].low);
        } else {
            assert(low_min(s) == s[s.len() - 1].low);
        }
    }
}

/// The bucket key of a non-negative time is between zero and the time, and
/// is a fixed point of bucketing.
pub proof fn lemma_bucket_key_range(t: int, tf: int)
    requires
        t >= 0,
        tf > 0,
    ensures
        0 <= bucket_key(t, tf) <= t,
        bucket_key(bucket_key(t, tf), tf) == bucket_key(t, tf),
{
    lemma_fundamental_div_mod(t, tf);
    lemma_mod_bound(t, tf);
    lemma_div_is_ordered(0, t, tf);
    let q = t / tf;
    lemma_mul_is_commutative(q, tf);
    assert(q * tf == t - t % tf);
    lemma_div_multiples_vanish(q, tf);
    assert((tf * q) / tf == q);
    assert(bucket_key(q * tf, tf) == ((q * tf) / tf) * tf);
}

/// One unfolding of `agg_spec` at a bucket boundary: the run `[i, j)` of
/// one key becomes one bucket candle in front of the aggregation of the
/// remainder.
pub proof fn lemma_agg_step(s: Seq<Candle>, tf: int, i: int, j: int)
    requires
        tf > 0,
        0 <= i < j <= s.len(),
        forall|m: int|
            i <= m < j ==> bucket_key(#[trigger] s[m].time as int, tf) == bucket_key(
                s[i].time as int,
                tf,
            ),
        j < s.len() ==> bucket_key(s[j].time as int, tf) != bucket_key(s[i].time as int, tf),
    ensures
        run_len(s.skip(i), tf) == j - i,
        bucket_candle(s.subrange(i, j), bucket_key(s[i].time as int, tf), tf).volume > 0
            ==> agg_spec(s.skip(i), tf) == seq![
            bucket_candle(s.subrange(i, j), bucket_key(s[i].time as int, tf), tf),
        ] + agg_spec(s.skip(j), tf),
        bucket_candle(s.subrange(i, j), bucket_key(s[i].time as int, tf), tf).volume == 0
            ==> agg_spec(s.skip(i), tf) == agg_spec(s.skip(j), tf),
{
    let rest = s.skip(i);
    assert(forall|m: int| 0 <= m < rest.len() ==> #[trigger] rest[m] == s[m + i]);
    lemma_run_len_eq(rest, tf, j - i);
    assert(rest.take(j - i) =~= s.subrange(i, j));
    assert(rest.skip(j - i) =~= s.skip(j));
    assert(rest[0] == s[i]);
}

/// Aggregate a time-sorted candle log into `tf_secs`-second buckets.
///
/// The result is exactly `agg_spec`: one candle per occupied bucket in
/// ascending bucket order, zero-volume buckets removed. Re-running on the
/// same input gives an identical result.
#[verifier::rlimit(60)]
pub fn aggregate(candles: &Vec<Candle>, tf_secs: i64) -> (out: Vec<Candle>)
    requires
        tf_secs > 0,
        candles_in_range(candles@),
        times_sorted(candles@),
        vol_sum(candles@) <= u64::MAX,
    ensures
        out@ == agg_spec(candles@, tf_secs as int),
{
    let ghost tf = tf_secs as int;
    let ghost s = candles@;
    let mut out: Vec<Candle> = Vec::new();
    let len = candles.len();
    let mut i: usize = 0;
    proof {
        lemma_keys_in_range(s, tf);
        assert(s.skip(0) =~= s);
        assert(out@ + agg_spec(s, tf) =~= agg_spec(s, tf));
    }
    while i < len
        invariant
            0 <= i <= len,
            len == s.len(),
            s == candles@,
            tf == tf_secs as int,
            tf_secs > 0,
            candles_in_range(s),
            times_sorted(s),
            keys_in_range(s, tf),
            vol_sum(s) <= u64::MAX,
            agg_spec(s, tf) == out@ + agg_spec(s.skip(i as int), tf),
        decreases len - i,
    {
        let key_i = (candles[i].time / tf_secs) * tf_secs;
        // Scan to the end of the current bucket's run.
        let mut j: usize = i + 1;
        while j < len && (candles[j].time / tf_secs) * tf_secs == key_i
            invariant
                i < j <= len,
                i < len,
                len == s.len(),
                s == candles@,
                tf == tf_secs as int,
                tf_secs > 0,
                candles_in_range(s),
                keys_in_range(s, tf),
                key_i == bucket_key(s[i as int].time as int, tf),
                forall|m: int|
                    i <= m < j ==> bucket_key(#[trigger] s[m].time as int, tf) == bucket_key(
                        s[i as int].time as int,
                        tf,
                    ),
            decreases len - j,
        {
            j = j + 1;
        }
        let ghost rest = s.skip(i as int);
        let ghost group = rest.take(j - i);
        proof {
            assert(forall|m: int| 0 <= m < rest.len() ==> #[trigger] rest[m] == s[m + i]);
            assert(forall|m: int| 0 <= m < j - i ==> #[trigger] group[m] == s[m + i]);
        }
        let first = candles[i];
        let mut high: i64 = first.high;
        let mut low: i64 = first.low;
        let mut close: i64 = first.close;
        let mut volume: u64 = first.volume;
        proof {
            assert(group.take(1) =~= seq![s[i as int]]);
            assert(group.take(1).drop_last() =~= Seq::<Candle>::empty());
            assert(vol_sum(Seq::<Candle>::empty()) == 0);
            assert(vol_sum(group.take(1)) == s[i as int].volume);
            lemma_vol_sum_subrange_le(s, i as int, i + 1);
            assert(s.subrange(i as int, i + 1) =~= group.take(1));
        }
        let mut m: usize = i + 1;
        while m < j
            invariant
                i < m <= j <= len,
                len == s.len(),
                s == candles@,
                candles_in_range(s),
                rest == s.skip(i as int),
                group == rest.take(j - i),
                forall|k: int| 0 <= k < j - i ==> #[trigger] group[k] == s[k + i],
                vol_sum(s) <= u64::MAX,
                high == high_max(group.take(m - i)),
                low == low_min(group.take(m - i)),
                close == group[m - i - 1].close,
                volume == vol_sum(group.take(m - i)),
                vol_sum(group.take(m - i)) == vol_sum(s.subrange(i as int, m as int)),
            decreases j - m,
        {
            let c = candles[m];
            proof {
                assert(group.take(m - i + 1).drop_last() =~= group.take(m - i));
                assert(group.take(m - i + 1).last() == s[m as int]);
                lemma_vol_sum_subrange_le(s, i as int, m + 1);
                assert(s.subrange(i as int, m + 1) =~= group.take(m - i + 1));
                lemma_vol_sum_nonneg(group.take(m - i));
            }
            if c.high > high {
                high = c.high;
            }
            if c.low < low {
                low = c.low;
            }
            close = c.close;
            volume = volume + c.volume;
            m = m + 1;
        }
        let ghost b = bucket_candle(group, key_i as int, tf);
        proof {
            assert(group.take(j - i) =~= group);
            assert(group.last() == group[j - i - 1]);
            lemma_vol_sum_subrange_le(s, i as int, j as int);
            assert(s.subrange(i as int, j as int) =~= group);
            assert(b == Candle {
                time: key_i,
                open: first.open,
                close: close,
                high: high,
                low: low,
                volume: volume,
                duration: tf_secs,
            });
        }
        let ghost out0 = out@;
        if volume > 0 {
            out.push(Candle {
                time: key_i,
                open: first.open,
                close: close,
                high: high,
                low: low,
                volume: volume,
                duration: tf_secs,
            });
        }
        proof {
            lemma_agg_step(s, tf, i as int, j as int);
            assert(s.subrange(i as int, j as int) =~= group);
            if volume > 0 {
                assert(out@ =~= out0 + seq![b]);
                assert((out0 + seq![b]) + agg_spec(s.skip(j as int), tf) =~= out0 + (seq![b]
                    + agg_spec(s.skip(j as int), tf)));
            }
            assert(agg_spec(s, tf) == out@ + agg_spec(s.skip(j as int), tf));
        }
        i = j;
    }
    proof {
        assert(s.skip(len as int) =~= Seq::<Candle>::empty());
        assert(out@ + Seq::<Candle>::empty() =~= out@);
    }
    out
}

/// Every candle's volume is at most the total.
pub proof fn lemma_vol_sum_ge_elem(s: Seq<Candle>, i: int)
    requires
        0 <= i < s.len(),
    ensures
        s[i].volume <= vol_sum(s),
    decreases s.len(),
{
    lemma_vol_sum_nonneg(s.drop_last());
    if i < s.len() - 1 {
        lemma_vol_sum_ge_elem(s.drop_last(), i);
        assert(s.drop_last()[i] == s[i]);
    }
}

/// Aggregation keeps a log healthy: the buckets again form a healthy,
/// strictly time-ordered log.
pub proof fn lemma_agg_log_wf(s: Seq<Candle>, tf: int)
    requires
        log_wf(s),
        0 < tf <= 4_000_000_000,
    ensures
        log_wf(agg_spec(s, tf)),
        forall|i: int, j: int|
            0 <= i < j < agg_spec(s, tf).len() ==> agg_spec(s, tf)[i].time < agg_spec(s, tf)[j].time,
        vol_sum(agg_spec(s, tf)) <= vol_sum(s),
{
    lemma_agg_props(s, tf);
    lemma_aggregate_monotone(s, tf);
    let a = agg_spec(s, tf);
    assert forall|i: int| 0 <= i < a.len() implies (#[trigger] a[i]).volume <= i64::MAX by {
        lemma_vol_sum_ge_elem(a, i);
    }
    assert forall|i: int| 0 <= i < a.len() implies time_ok((#[trigger] a[i]).time) by {
        if s.len() > 0 {
            assert(a[i].time <= s[s.len() - 1].time);
            assert(time_ok(s[s.len() - 1].time));
        }
    }
}

/// Bucket keys never decrease along a time-sorted log.
pub proof fn lemma_key_monotone(s: Seq<Candle>, tf: int, i: int, j: int)
    requires
        tf > 0,
        times_sorted(s),
        0 <= i <= j < s.len(),
    ensures
        bucket_key(s[i].time as int, tf) <= bucket_key(s[j].time as int, tf),
{
    if i < j {
        lemma_div_is_ordered(s[i].time as int, s[j].time as int, tf);
        lemma_mul_inequality(s[i].time as int / tf, s[j].time as int / tf, tf);
    }
}

/// Filtering with a predicate every element satisfies keeps the sequence.
pub proof fn lemma_filter_all(s: Seq<Candle>, pred: spec_fn(Candle) -> bool)
    requires
        forall|i: int| 0 <= i < s.len() ==> pred(#[trigger] s[i]),
    ensures
        s.filter(pred) == s,
    decreases s.len(),
{
    reveal(Seq::filter);
    if s.len() > 0 {
        assert(forall|i: int| 0 <= i < s.len() - 1 ==> #[trigger] s.drop_last()[i] == s[i]);
        lemma_filter_all(s.drop_last(), pred);
        assert(s.drop_last().push(s.last()) =~= s);
    }
}

/// Structural facts about the aggregation: every bucket keeps a positive
/// volume, carries the timeframe as its duration, sits exactly on its
/// bucket key, stays within price range, bucket times strictly increase,
/// and no volume is invented.
pub proof fn lemma_agg_props(s: Seq<Candle>, tf: int)
    requires
        0 < tf <= i64::MAX,
        candles_in_range(s),
        times_sorted(s),
        vol_sum(s) <= u64::MAX,
    ensures
        forall|i: int|
            0 <= i < agg_spec(s, tf).len() ==> (#[trigger] agg_spec(s, tf)[i]).volume > 0,
        forall|i: int|
            0 <= i < agg_spec(s, tf).len() ==> (#[trigger] agg_spec(s, tf)[i]).duration == tf,
        forall|i: int|
            0 <= i < agg_spec(s, tf).len() ==> (#[trigger] agg_spec(s, tf)[i]).time as int
                == bucket_key(agg_spec(s, tf)[i].time as int, tf),
        forall|i: int|
            0 <= i < agg_spec(s, tf).len() ==> candle_in_range(#[trigger] agg_spec(s, tf)[i]),
        forall|i: int, j: int|
            0 <= i < j < agg_spec(s, tf).len() ==> agg_spec(s, tf)[i].time < agg_spec(
                s,
                tf,
            )[j].time,
        vol_sum(agg_spec(s, tf)) <= vol_sum(s),
        s.len() > 0 ==> forall|i: int|
            0 <= i < agg_spec(s, tf).len() ==> (#[trigger] agg_spec(s, tf)[i]).time as int
                >= bucket_key(s[0].time as int, tf),
        s.len() > 0 ==> forall|i: int|
            0 <= i < agg_spec(s, tf).len() ==> (#[trigger] agg_spec(s, tf)[i]).time
                <= s[s.len() - 1].time,
    decreases s.len(),
{
    if s.len() > 0 {
        lemma_run_len_bounds(s, tf);
        let n = run_len(s, tf);
        let k = bucket_key(s[0].time as int, tf);
        let group = s.take(n);
        let sk = s.skip(n);
        let b = bucket_candle(group, k, tf);
        assert(forall|m: int| 0 <= m < n ==> #[trigger] group[m] == s[m]);
        assert(forall|m: int| 0 <= m < sk.len() ==> #[trigger] sk[m] == s[m + n]);
        lemma_vol_sum_split(s, n);
        lemma_vol_sum_nonneg(group);
        lemma_vol_sum_nonneg(sk);
        lemma_agg_props(sk, tf);
        lemma_bucket_key_range(s[0].time as int, tf);
        lemma_fold_bounds(group);
        let wh = choose|m: int| 0 <= m < group.len() && high_max(group) == #[trigger] group[m].high;
        let wl = choose|m: int| 0 <= m < group.len() && low_min(group) == #[trigger] group[m].low;
        assert(candle_in_range(s[wh]));
        assert(candle_in_range(s[wl]));
        assert(b.time == k);
        assert(b.volume == vol_sum(group));
        let ra = agg_spec(sk, tf);
        if sk.len() > 0 {
            let k2 = bucket_key(s[n].time as int, tf);
            lemma_key_monotone(s, tf, 0, n);
            assert(k2 > k);
        }
        if b.volume > 0 {
            let a = agg_spec(s, tf);
            assert(a == seq![b] + ra);
            assert(a[0] == b);
            assert(forall|i: int| 1 <= i < a.len() ==> #[trigger] a[i] == ra[i - 1]);
            lemma_vol_sum_prepend(b, ra);
            assert forall|i: int, j: int| 0 <= i < j < a.len() implies a[i].time < a[j].time by {
                if i == 0 {
                    assert(sk.len() > 0);
                    assert(a[j] == ra[j - 1]);
                    assert(ra[j - 1].time as int >= bucket_key(sk[0].time as int, tf));
                }
            }
        } else {
            assert(agg_spec(s, tf) == ra);
            if sk.len() > 0 {
                assert forall|i: int|
                    0 <= i < ra.len() implies (#[trigger] ra[i]).time as int >= k by {
                    assert(ra[i].time as int >= bucket_key(sk[0].time as int, tf));
                }
            }
        }
    }
}

/// Aggregation monotonicity: every bucket of the aggregation of a
/// well-formed, time-sorted log is itself well-formed — its low bounds
/// both body ends from below and its high from above — and its volume is
/// exactly the summed volume of the input candles that fall in its
/// bucket.
#[verifier::rlimit(100)]
pub proof fn lemma_aggregate_monotone(s: Seq<Candle>, tf: int)
    requires
        0 < tf <= i64::MAX,
        candles_in_range(s),
        times_sorted(s),
        vol_sum(s) <= u64::MAX,
        forall|i: int| 0 <= i < s.len() ==> (#[trigger] s[i]).wf(),
    ensures
        forall|i: int| 0 <= i < agg_spec(s, tf).len() ==> (#[trigger] agg_spec(s, tf)[i]).wf(),
        forall|i: int|
            0 <= i < agg_spec(s, tf).len() ==> (#[trigger] agg_spec(s, tf)[i]).volume == vol_sum(
                s.filter(
                    |c: Candle| bucket_key(c.time as int, tf) == agg_spec(s, tf)[i].time as int,
                ),
            ),
    decreases s.len(),
{
    broadcast use vstd::seq_lib::group_seq_properties;

    if s.len() > 0 {
        lemma_run_len_bounds(s, tf);
        let n = run_len(s, tf);
        let k = bucket_key(s[0].time as int, tf);
        let group = s.take(n);
        let sk = s.skip(n);
        let b = bucket_candle(group, k, tf);
        assert(forall|m: int| 0 <= m < n ==> #[trigger] group[m] == s[m]);
        assert(forall|m: int| 0 <= m < sk.len() ==> #[trigger] sk[m] == s[m + n]);
        lemma_vol_sum_split(s, n);
        lemma_vol_sum_nonneg(group);
        lemma_vol_sum_nonneg(sk);
        lemma_aggregate_monotone(sk, tf);
        lemma_agg_props(sk, tf);
        lemma_bucket_key_range(s[0].time as int, tf);
        lemma_fold_bounds(group);
        assert(s =~= group + sk);
        // Keys at and after the cut are strictly above k; keys inside the
        // group equal k.
        assert forall|m: int|
            0 <= m < sk.len() implies bucket_key(#[trigger] sk[m].time as int, tf) > k by {
            lemma_key_monotone(s, tf, 0, n);
            lemma_key_monotone(s, tf, n, m + n);
        }
        let pk = |c: Candle| bucket_key(c.time as int, tf) == k;
        lemma_filter_all(group, pk);
        sk.lemma_all_neg_filter_empty(pk);
        assert(s.filter(pk) == group.filter(pk) + sk.filter(pk));
        assert(group + sk.filter(pk) =~= group);
        assert(vol_sum(s.filter(pk)) == vol_sum(group));
        // Well-formedness of the head bucket.
        if b.volume > 0 {
            assert(b.low <= b.open <= b.high && b.low <= b.close <= b.high) by {
                assert(group[0].wf());
                assert(group.last().wf());
                assert(group[0].high <= high_max(group));
                assert(low_min(group) <= group[0].low);
                assert(group.last().high <= high_max(group));
                assert(low_min(group) <= group.last().low);
            }
            let a = agg_spec(s, tf);
            let ra = agg_spec(sk, tf);
            assert(a == seq![b] + ra);
            assert(a[0] == b);
            assert(forall|i: int| 1 <= i < a.len() ==> #[trigger] a[i] == ra[i - 1]);
            assert(a[0].wf());
            // Each later bucket's filter over s equals its filter over sk.
            assert forall|i: int|
                1 <= i < a.len() implies (#[trigger] a[i]).volume == vol_sum(
                s.filter(|c: Candle| bucket_key(c.time as int, tf) == a[i].time as int),
            ) by {
                let kk = a[i].time as int;
                let pkk = |c: Candle| bucket_key(c.time as int, tf) == kk;
                assert(ra[i - 1].time as int >= bucket_key(sk[0].time as int, tf));
                assert(kk > k);
                group.lemma_all_neg_filter_empty(pkk);
                assert(s.filter(pkk) == group.filter(pkk) + sk.filter(pkk));
                assert(group.filter(pkk) + sk.filter(pkk) =~= sk.filter(pkk));
                assert(ra[i - 1].volume == vol_sum(sk.filter(pkk)));
            }
        } else {
            let a = agg_spec(s, tf);
            let ra = agg_spec(sk, tf);
            assert(a == ra);
            assert forall|i: int|
                0 <= i < a.len() implies (#[trigger] a[i]).volume == vol_sum(
                s.filter(|c: Candle| bucket_key(c.time as int, tf) == a[i].time as int),
            ) by {
                let kk = a[i].time as int;
                let pkk = |c: Candle| bucket_key(c.time as int, tf) == kk;
                if sk.len() > 0 {
                    assert(ra[i].time as int >= bucket_key(sk[0].time as int, tf));
                }
                assert(kk > k);
                group.lemma_all_neg_filter_empty(pkk);
                assert(s.filter(pkk) == group.filter(pkk) + sk.filter(pkk));
                assert(group.filter(pkk) + sk.filter(pkk) =~= sk.filter(pkk));
                assert(ra[i].volume == vol_sum(sk.filter(pkk)));
            }
        }
    }
}

/// A sequence that already looks like an aggregation — bucket-aligned,
/// strictly increasing times, positive volumes, durations equal to the
/// timeframe — aggregates to itself.
proof fn lemma_agg_fixed(a: Seq<Candle>, tf: int)
    requires
        0 < tf <= i64::MAX,
        candles_in_range(a),
        vol_sum(a) <= u64::MAX,
        forall|i: int| 0 <= i < a.len() ==> (#[trigger] a[i]).volume > 0,
        forall|i: int| 0 <= i < a.len() ==> (#[trigger] a[i]).duration == tf,
        forall|i: int|
            0 <= i < a.len() ==> (#[trigger] a[i]).time as int == bucket_key(a[i].time as int, tf),
        forall|i: int, j: int| 0 <= i < j < a.len() ==> a[i].time < a[j].time,
    ensures
        agg_spec(a, tf) == a,
    decreases a.len(),
{
    if a.len() > 0 {
        if a.len() > 1 {
            assert(a[0].time < a[1].time);
        }
        lemma_run_len_eq(a, tf, 1);
        let group = a.take(1);
        assert(group =~= seq![a[0]]);
        assert(group.drop_last() =~= Seq::<Candle>::empty());
        assert(vol_sum(Seq::<Candle>::empty()) == 0);
        assert(vol_sum(group) == vol_sum(group.drop_last()) + a[0].volume);
        let b = bucket_candle(group, bucket_key(a[0].time as int, tf), tf);
        assert(b == a[0]);
        let sk = a.skip(1);
        assert(forall|m: int| 0 <= m < sk.len() ==> #[trigger] sk[m] == a[m + 1]);
        lemma_vol_sum_split(a, 1);
        lemma_vol_sum_nonneg(group);
        lemma_vol_sum_nonneg(sk);
        lemma_agg_fixed(sk, tf);
        assert(agg_spec(a, tf) == seq![b] + agg_spec(sk, tf));
        assert(seq![a[0]] + sk =~= a);
    }
}

/// Bucket idempotence: aggregating an aggregation with the same timeframe
/// changes nothing — the output buckets are already aligned, strictly
/// ordered, and carry the timeframe as their duration.
pub proof fn lemma_aggregate_idempotent(s: Seq<Candle>, tf: int)
    requires
        0 < tf <= i64::MAX,
        candles_in_range(s),
        times_sorted(s),
        vol_sum(s) <= u64::MAX,
    ensures
        agg_spec(agg_spec(s, tf), tf) == agg_spec(s, tf),
{
    lemma_agg_props(s, tf);
    let a = agg_spec(s, tf);
    lemma_agg_fixed(a, tf);
}

/// The aggregation never holds more buckets than input candles.
pub proof fn lemma_agg_len_le(s: Seq<Candle>, tf: int)
    ensures
        agg_spec(s, tf).len() <= s.len(),
    decreases s.len(),
{
    if s.len() > 0 {
        lemma_run_len_bounds(s, tf);
        let n = run_len(s, tf);
        lemma_agg_len_le(s.skip(n), tf);
    }
}

} // verus!
