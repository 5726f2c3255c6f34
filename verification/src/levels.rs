//! Price-level discovery utilities: collect the extreme prices of a
//! frame as candidate levels and cluster away near-duplicates.

use vstd::prelude::*;

use crate::candle::{abs_i64, price_ok};
use crate::controller::PriceLevel;
use crate::dataframe::{df_wf, DataFrame};

verus! {

/// The scan for the first row holding the minimal low.
pub open spec fn min_low_scan(data: Seq<Option<i64>>, i: int, best: int) -> int
    decreases data.len() - i,
{
    if i < 0 || i >= data.len() {
        best
    } else if data[i].unwrap() < data[best].unwrap() {
        min_low_scan(data, i + 1, i)
    } else {
        min_low_scan(data, i + 1, best)
    }
}

/// The scan for the last row holding the maximal high.
pub open spec fn max_high_scan(data: Seq<Option<i64>>, i: int, best: int) -> int
    decreases data.len() - i,
{
    if i < 0 || i >= data.len() {
        best
    } else if data[i].unwrap() >= data[best].unwrap() {
        max_high_scan(data, i + 1, i)
    } else {
        max_high_scan(data, i + 1, best)
    }
}

/// The two levels a frame contributes: the minimal low (earliest such
/// row) and the maximal high (latest such row), each stamped with its
/// row instant. An empty frame contributes nothing.
pub open spec fn min_max_levels_s(
    idx: Seq<i64>,
    lows: Seq<Option<i64>>,
    highs: Seq<Option<i64>>,
) -> Seq<PriceLevel> {
    if idx.len() == 0 {
        Seq::empty()
    } else {
        let lo = min_low_scan(lows, 1, 0);
        let hi = max_high_scan(highs, 1, 0);
        seq![
            PriceLevel { price: lows[lo].unwrap(), is_active: false, at: idx[lo] },
            PriceLevel { price: highs[hi].unwrap(), is_active: false, at: idx[hi] },
        ]
    }
}

pub open spec fn min_max_levels(df: DataFrame) -> Seq<PriceLevel> {
    min_max_levels_s(df.index@, df.cols@[1].data@, df.cols@[2].data@)
}

/// The minimum scan stays within the column.
pub proof fn lemma_min_low_scan_range(data: Seq<Option<i64>>, i: int, best: int)
    requires
        0 <= best < data.len(),
        0 <= i,
    ensures
        0 <= min_low_scan(data, i, best) < data.len(),
    decreases data.len() - i,
{
    if 0 <= i && i < data.len() {
        if data[i].unwrap() < data[best].unwrap() {
            lemma_min_low_scan_range(data, i + 1, i);
        } else {
            lemma_min_low_scan_range(data, i + 1, best);
        }
    }
}

/// The maximum scan stays within the column.
pub proof fn lemma_max_high_scan_range(data: Seq<Option<i64>>, i: int, best: int)
    requires
        0 <= best < data.len(),
        0 <= i,
    ensures
        0 <= max_high_scan(data, i, best) < data.len(),
    decreases data.len() - i,
{
    if 0 <= i && i < data.len() {
        if data[i].unwrap() >= data[best].unwrap() {
            lemma_max_high_scan_range(data, i + 1, i);
        } else {
            lemma_max_high_scan_range(data, i + 1, best);
        }
    }
}

/// A frame in the standard layout with gap-free low and high columns.
pub open spec fn frame_minmax_ready(df: DataFrame) -> bool {
    &&& df_wf(df)
    &&& df.cols@.len() >= 5
    &&& forall|k: int| 0 <= k < df.index@.len() ==> (#[trigger] df.cols@[1].data@[k]) is Some
    &&& forall|k: int| 0 <= k < df.index@.len() ==> (#[trigger] df.cols@[2].data@[k]) is Some
}

/// Append the frame's extreme-price levels: its minimal low and maximal
/// high, stamped with their row instants.
pub fn find_min_max(levels: &mut Vec<PriceLevel>, df: &DataFrame)
    requires
        frame_minmax_ready(*df),
    ensures
        final(levels)@ == old(levels)@ + min_max_levels(*df),
{
    let n = df.index.len();
    if n == 0 {
        proof {
            assert(old(levels)@ + min_max_levels(*df) =~= levels@);
        }
        return;
    }
    let ghost lows = df.cols@[1].data@;
    let ghost highs = df.cols@[2].data@;
    let mut lo: usize = 0;
    let mut i: usize = 1;
    while i < n
        invariant
            1 <= i <= n,
            0 <= lo < i,
            n == df.index@.len(),
            frame_minmax_ready(*df),
            lows == df.cols@[1].data@,
            min_low_scan(lows, 1, 0) == min_low_scan(lows, i as int, lo as int),
        decreases n - i,
    {
        let a = match df.cols[1].data[i] {
            Option::Some(v) => v,
            Option::None => 0,
        };
        let b = match df.cols[1].data[lo] {
            Option::Some(v) => v,
            Option::None => 0,
        };
        if a < b {
            lo = i;
        }
        i = i + 1;
    }
    let mut hi: usize = 0;
    let mut j: usize = 1;
    while j < n
        invariant
            1 <= j <= n,
            0 <= hi < j,
            n == df.index@.len(),
            frame_minmax_ready(*df),
            highs == df.cols@[2].data@,
            max_high_scan(highs, 1, 0) == max_high_scan(highs, j as int, hi as int),
        decreases n - j,
    {
        let a = match df.cols[2].data[j] {
            Option::Some(v) => v,
            Option::None => 0,
        };
        let b = match df.cols[2].data[hi] {
            Option::Some(v) => v,
            Option::None => 0,
        };
        if a >= b {
            hi = j;
        }
        j = j + 1;
    }
    let ghost prev = levels@;
    let lo_price = match df.cols[1].data[lo] {
        Option::Some(v) => v,
        Option::None => 0,
    };
    let hi_price = match df.cols[2].data[hi] {
        Option::Some(v) => v,
        Option::None => 0,
    };
    levels.push(PriceLevel { price: lo_price, is_active: false, at: df.index[lo] });
    levels.push(PriceLevel { price: hi_price, is_active: false, at: df.index[hi] });
    proof {
        assert(levels@ =~= prev + min_max_levels(*df));
    }
}

/// The marking pass of the clustering: row `i`, when itself unmarked,
/// marks every later level within the threshold of it.
pub open spec fn mark_row(levels: Seq<PriceLevel>, th: int, i: int, ign: Seq<bool>) -> Seq<bool> {
    Seq::new(
        ign.len(),
        |j: int|
            ign[j] || (j > i && abs_i64(levels[i].price - levels[j].price) < th),
    )
}

pub open spec fn mark_from(levels: Seq<PriceLevel>, th: int, i: int, ign: Seq<bool>) -> Seq<bool>
    decreases levels.len() - i,
{
    if i < 0 || i >= levels.len() {
        ign
    } else if ign[i] {
        mark_from(levels, th, i + 1, ign)
    } else {
        mark_from(levels, th, i + 1, mark_row(levels, th, i, ign))
    }
}

/// The final kept/ignored flags of the clustering.
pub open spec fn dedupe_flags(levels: Seq<PriceLevel>, th: int) -> Seq<bool> {
    mark_from(levels, th, 0, Seq::new(levels.len(), |j: int| false))
}

/// The clustered levels: those whose flag stayed clear, in order.
pub open spec fn dedupe_spec(levels: Seq<PriceLevel>, th: int) -> Seq<PriceLevel> {
    Seq::new(levels.len(), |j: int| j).filter(
        |j: int| !dedupe_flags(levels, th)[j],
    ).map_values(|j: int| levels[j])
}

/// Cluster away near-duplicate levels: walking in order, each kept level
/// suppresses every later level whose price lies within the threshold of
/// its own; suppressed levels suppress nothing.
pub fn dedupe_price_levels(levels: Vec<PriceLevel>, threshold: i64) -> (r: Vec<PriceLevel>)
    requires
        forall|i: int| 0 <= i < levels@.len() ==> price_ok((#[trigger] levels@[i]).price),
        0 <= threshold,
    ensures
        r@ == dedupe_spec(levels@, threshold as int),
        forall|k: int| 0 <= k < r@.len() ==> price_ok((#[trigger] r@[k]).price),
{
    let n = levels.len();
    let ghost lv = levels@;
    let ghost th = threshold as int;
    let mut ign: Vec<bool> = Vec::new();
    let mut z: usize = 0;
    while z < n
        invariant
            0 <= z <= n,
            ign@.len() == z,
            forall|k: int| 0 <= k < z ==> !(#[trigger] ign@[k]),
        decreases n - z,
    {
        ign.push(false);
        z = z + 1;
    }
    proof {
        assert(ign@ =~= Seq::new(lv.len(), |j: int| false));
    }
    let mut i: usize = 0;
    while i < n
        invariant
            0 <= i <= n,
            n == lv.len(),
            lv == levels@,
            th == threshold as int,
            threshold >= 0,
            forall|k: int| 0 <= k < lv.len() ==> price_ok((#[trigger] lv[k]).price),
            ign@.len() == n,
            dedupe_flags(lv, th) == mark_from(lv, th, i as int, ign@),
        decreases n - i,
    {
        if !ign[i] {
            let pi = levels[i].price;
            let ghost before = ign@;
            let mut j: usize = i + 1;
            while j < n
                invariant
                    i < j <= n,
                    i < n,
                    n == lv.len(),
                    lv == levels@,
                    th == threshold as int,
                    threshold >= 0,
                    forall|k: int| 0 <= k < lv.len() ==> price_ok((#[trigger] lv[k]).price),
                    pi == lv[i as int].price,
                    ign@.len() == n,
                    forall|k: int|
                        0 <= k < n ==> #[trigger] ign@[k] == (before[k] || (i < k < j && abs_i64(
                            lv[i as int].price - lv[k].price,
                        ) < th)),
                decreases n - j,
            {
                let pj = levels[j].price;
                let d = if pi >= pj {
                    pi - pj
                } else {
                    pj - pi
                };
                if d < threshold {
                    ign.set(j, true);
                }
                j = j + 1;
            }
            proof {
                assert(ign@ =~= mark_row(lv, th, i as int, before));
            }
        }
        i = i + 1;
    }
    let mut out: Vec<PriceLevel> = Vec::new();
    let ghost flags = dedupe_flags(lv, th);
    proof {
        assert(flags == ign@);
        reveal(Seq::filter);
        assert(Seq::new(0nat, |j: int| j).filter(|j: int| !flags[j]) =~= Seq::<int>::empty());
        assert(out@ =~= Seq::new(0nat, |j: int| j).filter(|j: int| !flags[j]).map_values(
            |j: int| lv[j],
        ));
    }
    let mut m: usize = 0;
    while m < n
        invariant
            0 <= m <= n,
            n == lv.len(),
            lv == levels@,
            forall|k: int| 0 <= k < lv.len() ==> price_ok((#[trigger] lv[k]).price),
            flags == dedupe_flags(lv, th),
            flags == ign@,
            ign@.len() == n,
            out@ == Seq::new(m as nat, |j: int| j).filter(|j: int| !flags[j]).map_values(
                |j: int| lv[j],
            ),
            forall|k: int| 0 <= k < out@.len() ==> price_ok((#[trigger] out@[k]).price),
        decreases n - m,
    {
        proof {
            reveal(Seq::filter);
            let idxs_next = Seq::new((m + 1) as nat, |j: int| j);
            let idxs = Seq::new(m as nat, |j: int| j);
            assert(idxs_next.drop_last() =~= idxs);
            assert(idxs_next.last() == m as int);
        }
        let ghost prev_out = out@;
        if !ign[m] {
            out.push(levels[m]);
            proof {
                assert(Seq::new((m + 1) as nat, |j: int| j).filter(
                    |j: int| !flags[j],
                ).map_values(|j: int| lv[j]) =~= prev_out.push(lv[m as int]));
            }
        } else {
            proof {
                assert(Seq::new((m + 1) as nat, |j: int| j).filter(|j: int| !flags[j])
                    =~= Seq::new(m as nat, |j: int| j).filter(|j: int| !flags[j]));
            }
        }
        m = m + 1;
    }
    proof {
        assert(Seq::new(n as nat, |j: int| j) == Seq::new(lv.len(), |j: int| j));
    }
    out
}

} // verus!
