//! A column-oriented, time-indexed table: an ordered sequence of row
//! instants and named value columns of exactly the same length. A cell
//! holds a value or a gap (an indicator warm-up hole). Insertion keeps
//! the declaration order of columns; filtering keeps row order.

use vstd::prelude::*;

use crate::candle::Candle;

verus! {

/// One named column of optional values.
pub struct Column {
    pub name: String,
    pub data: Vec<Option<i64>>,
}

/// The table: row instants (naive seconds) and the columns.
pub struct DataFrame {
    pub index: Vec<i64>,
    pub cols: Vec<Column>,
}

/// Seconds per calendar day.
pub const DAY_SECS: i64 = 86_400;

/// The calendar day of a non-negative instant.
pub open spec fn spec_day_of(ts: i64) -> int {
    (ts as int) / (DAY_SECS as int)
}

/// The weekday of a day number, with Monday as zero (day zero of the
/// epoch was a Thursday).
pub open spec fn spec_weekday(day: int) -> int {
    (day + 3) % 7
}

pub open spec fn spec_is_weekend(day: int) -> bool {
    spec_weekday(day) == 5 || spec_weekday(day) == 6
}

/// Every column is exactly as long as the index, and no two columns
/// share a name.
pub open spec fn df_wf(df: DataFrame) -> bool {
    &&& forall|j: int|
        0 <= j < df.cols@.len() ==> (#[trigger] df.cols@[j]).data@.len() == df.index@.len()
    &&& forall|j1: int, j2: int|
        0 <= j1 < j2 < df.cols@.len() ==> df.cols@[j1].name@ != df.cols@[j2].name@
}

/// Row instants never decrease.
pub open spec fn df_sorted(df: DataFrame) -> bool {
    forall|i: int, j: int| 0 <= i < j < df.index@.len() ==> df.index@[i] <= df.index@[j]
}

/// All row instants are non-negative.
pub open spec fn df_times_nonneg(df: DataFrame) -> bool {
    forall|i: int| 0 <= i < df.index@.len() ==> 0 <= #[trigger] df.index@[i]
}

/// The position of the column with the given name, if any.
pub open spec fn find_col(cols: Seq<Column>, name: Seq<char>) -> Option<int>
    decreases cols.len(),
{
    if cols.len() == 0 {
        None
    } else if cols[0].name@ == name {
        Some(0)
    } else {
        match find_col(cols.skip(1), name) {
            Option::None => None,
            Option::Some(j) => Some(j + 1),
        }
    }
}

/// A gap-free column of every candle's given field, plus the index.
impl DataFrame {
    /// The number of rows and columns.
    pub fn shape(&self) -> (r: (usize, usize))
        ensures
            r.0 == self.index@.len(),
            r.1 == self.cols@.len(),
    {
        (self.index.len(), self.cols.len())
    }

    /// The row instants.
    pub fn index(&self) -> (r: &Vec<i64>)
        ensures
            r@ == self.index@,
    {
        &self.index
    }

    /// Borrow the data of the named column, or nothing when no column
    /// carries the name.
    pub fn col(&self, name: &str) -> (r: Option<&Vec<Option<i64>>>)
        requires
            df_wf(*self),
        ensures
            match find_col(self.cols@, name@) {
                Option::None => r is None,
                Option::Some(j) => r matches Some(d) && d@ == self.cols@[j].data@,
            },
    {
        let owned = name.to_owned();
        let n = self.cols.len();
        let mut j: usize = 0;
        proof {
            assert(self.cols@.skip(0) =~= self.cols@);
        }
        while j < n
            invariant
                0 <= j <= n,
                n == self.cols@.len(),
                owned@ == name@,
                find_col(self.cols@, name@) == match find_col(self.cols@.skip(j as int), name@) {
                    Option::None => None::<int>,
                    Option::Some(k) => Some(k + j),
                },
            decreases n - j,
        {
            proof {
                assert(self.cols@.skip(j as int)[0] == self.cols@[j as int]);
                assert(self.cols@.skip(j as int).skip(1) =~= self.cols@.skip(j + 1));
            }
            if self.cols[j].name.eq(&owned) {
                return Some(&self.cols[j].data);
            }
            j = j + 1;
        }
        proof {
            assert(self.cols@.skip(n as int) =~= Seq::<Column>::empty());
        }
        None
    }

    /// Append or replace a column. Data of any length other than the
    /// index length is rejected and nothing changes; a column under an
    /// existing name is replaced in place, a new name is appended.
    pub fn insert_column(&mut self, name: String, data: Vec<Option<i64>>) -> (r: bool)
        requires
            df_wf(*old(self)),
        ensures
            df_wf(*final(self)),
            final(self).index@ == old(self).index@,
            r == (data@.len() == old(self).index@.len()),
            !r ==> final(self).cols@ == old(self).cols@,
            r && find_col(old(self).cols@, name@) is None ==> ({
                &&& final(self).cols@.len() == old(self).cols@.len() + 1
                &&& final(self).cols@.last().name@ == name@
                &&& final(self).cols@.last().data@ == data@
                &&& forall|j: int|
                    0 <= j < old(self).cols@.len() ==> (#[trigger] final(self).cols@[j]).name@
                        == old(self).cols@[j].name@
                        && final(self).cols@[j].data@ == old(self).cols@[j].data@
            }),
            r && find_col(old(self).cols@, name@) is Some ==> ({
                let jj = find_col(old(self).cols@, name@).unwrap();
                &&& final(self).cols@.len() == old(self).cols@.len()
                &&& final(self).cols@[jj].name@ == name@
                &&& final(self).cols@[jj].data@ == data@
                &&& forall|j: int|
                    0 <= j < old(self).cols@.len() && j != jj
                        ==> (#[trigger] final(self).cols@[j]).name@ == old(self).cols@[j].name@
                        && final(self).cols@[j].data@ == old(self).cols@[j].data@
            }),
    {
        if data.len() != self.index.len() {
            return false;
        }
        let n = self.cols.len();
        let mut j: usize = 0;
        proof {
            assert(self.cols@.skip(0) =~= self.cols@);
        }
        while j < n
            invariant
                0 <= j <= n,
                n == self.cols@.len(),
                df_wf(*self),
                self == old(self),
                data@.len() == self.index@.len(),
                find_col(self.cols@, name@) == match find_col(self.cols@.skip(j as int), name@) {
                    Option::None => None::<int>,
                    Option::Some(k) => Some(k + j),
                },
                forall|m: int| 0 <= m < j ==> self.cols@[m].name@ != name@,
            decreases n - j,
        {
            proof {
                assert(self.cols@.skip(j as int)[0] == self.cols@[j as int]);
                assert(self.cols@.skip(j as int).skip(1) =~= self.cols@.skip(j + 1));
            }
            if self.cols[j].name.eq(&name) {
                proof {
                    assert(find_col(self.cols@, name@) == Some(j as int));
                    assert(self.cols@[j as int].name@ == name@);
                }
                let c = Column { name, data };
                self.cols.set(j, c);
                proof {
                    assert(forall|m: int|
                        0 <= m < self.cols@.len() && m != j ==> #[trigger] self.cols@[m] == old(
                            self,
                        ).cols@[m]);
                    assert(self.cols@[j as int].name@ == name@);
                    assert forall|j1: int, j2: int|
                        0 <= j1 < j2 < self.cols@.len() implies self.cols@[j1].name@
                        != self.cols@[j2].name@ by {
                        assert(old(self).cols@[j1].name@ != old(self).cols@[j2].name@);
                    }
                }
                return true;
            }
            j = j + 1;
        }
        proof {
            assert(self.cols@.skip(n as int) =~= Seq::<Column>::empty());
            assert(find_col(self.cols@, name@) is None);
        }
        let c = Column { name, data };
        self.cols.push(c);
        proof {
            assert(forall|m: int|
                0 <= m < old(self).cols@.len() ==> #[trigger] self.cols@[m] == old(self).cols@[m]);
            assert(self.cols@.last().name@ == name@);
            assert forall|j1: int, j2: int|
                0 <= j1 < j2 < self.cols@.len() implies self.cols@[j1].name@
                != self.cols@[j2].name@ by {
                if j2 < self.cols@.len() - 1 {
                    assert(old(self).cols@[j1].name@ != old(self).cols@[j2].name@);
                } else {
                    assert(old(self).cols@[j1].name@ != name@);
                }
            }
        }
        true
    }
}

/// Length of the initial run of instants that share the first instant's
/// calendar day.
pub open spec fn day_run_len(idx: Seq<i64>) -> int
    decreases idx.len(),
{
    if idx.len() == 0 {
        0
    } else if idx.len() == 1 {
        1
    } else if spec_day_of(idx[1]) == spec_day_of(idx[0]) {
        1 + day_run_len(idx.skip(1))
    } else {
        1
    }
}

pub proof fn lemma_day_run_len_bounds(idx: Seq<i64>)
    requires
        idx.len() > 0,
    ensures
        1 <= day_run_len(idx) <= idx.len(),
        forall|m: int|
            0 <= m < day_run_len(idx) ==> spec_day_of(#[trigger] idx[m]) == spec_day_of(idx[0]),
        day_run_len(idx) < idx.len() ==> spec_day_of(idx[day_run_len(idx)]) != spec_day_of(idx[0]),
    decreases idx.len(),
{
    if idx.len() > 1 && spec_day_of(idx[1]) == spec_day_of(idx[0]) {
        lemma_day_run_len_bounds(idx.skip(1));
        assert(forall|m: int| 0 <= m < idx.skip(1).len() ==> #[trigger] idx.skip(1)[m] == idx[m + 1]);
        let r1 = day_run_len(idx.skip(1));
        assert forall|m: int|
            0 <= m < day_run_len(idx) implies spec_day_of(#[trigger] idx[m]) == spec_day_of(
            idx[0],
        ) by {
            if m >= 1 {
                assert(idx[m] == idx.skip(1)[m - 1]);
                assert(spec_day_of(idx.skip(1)[m - 1]) == spec_day_of(idx.skip(1)[0]));
            }
        }
        if day_run_len(idx) < idx.len() {
            assert(idx[day_run_len(idx)] == idx.skip(1)[r1]);
        }
    }
}

pub proof fn lemma_day_run_len_eq(idx: Seq<i64>, n: int)
    requires
        1 <= n <= idx.len(),
        forall|m: int| 0 <= m < n ==> spec_day_of(#[trigger] idx[m]) == spec_day_of(idx[0]),
        n < idx.len() ==> spec_day_of(idx[n]) != spec_day_of(idx[0]),
    ensures
        day_run_len(idx) == n,
{
    lemma_day_run_len_bounds(idx);
    let r = day_run_len(idx);
    if n < r {
        assert(spec_day_of(idx[n]) == spec_day_of(idx[0]));
    } else if r < n {
        assert(spec_day_of(idx[r]) == spec_day_of(idx[0]));
    }
}

/// The ascending qualifying working days of a time-sorted index: one day
/// per run, kept when the day is no weekend and either its first and
/// last instants span at least `span` seconds or it is the index's last
/// day — the day still in progress is exempt from the span test.
pub open spec fn work_days_spec(idx: Seq<i64>, span: int) -> Seq<i64>
    decreases idx.len(),
    via work_days_spec_decreases
{
    if idx.len() == 0 {
        Seq::empty()
    } else {
        let n = day_run_len(idx);
        let d = spec_day_of(idx[0]);
        let rest = work_days_spec(idx.skip(n), span);
        if !spec_is_weekend(d) && (idx[n - 1] - idx[0] >= span || n == idx.len()) {
            seq![d as i64] + rest
        } else {
            rest
        }
    }
}

/// The last `days` qualifying working days: the dates whose rows a trim
/// keeps.
pub open spec fn retained_days(idx: Seq<i64>, span: int, days: int) -> Seq<i64> {
    let wd = work_days_spec(idx, span);
    if wd.len() <= days {
        wd
    } else {
        wd.skip(wd.len() - days)
    }
}

/// A day with two rows the given span apart.
pub open spec fn day_span_ok(idx: Seq<i64>, d: i64, span: int) -> bool {
    exists|a: int, b: int|
        0 <= a <= b < idx.len() && spec_day_of(#[trigger] idx[a]) == d as int && spec_day_of(
            #[trigger] idx[b],
        ) == d as int && idx[b] - idx[a] >= span
}

#[via_fn]
proof fn work_days_spec_decreases(idx: Seq<i64>, span: int) {
    if idx.len() > 0 {
        lemma_day_run_len_bounds(idx);
    }
}

/// One unfolding of the working-day walk at a day boundary.
pub proof fn lemma_work_days_step(idx: Seq<i64>, span: int, i: int, j: int)
    requires
        0 <= i < j <= idx.len(),
        forall|m: int|
            i <= m < j ==> spec_day_of(#[trigger] idx[m]) == spec_day_of(idx[i]),
        j < idx.len() ==> spec_day_of(idx[j]) != spec_day_of(idx[i]),
    ensures
        day_run_len(idx.skip(i)) == j - i,
        !spec_is_weekend(spec_day_of(idx[i])) && (idx[j - 1] - idx[i] >= span || j == idx.len())
            ==> work_days_spec(idx.skip(i), span) == seq![spec_day_of(idx[i]) as i64]
            + work_days_spec(idx.skip(j), span),
        !(!spec_is_weekend(spec_day_of(idx[i])) && (idx[j - 1] - idx[i] >= span || j
            == idx.len())) ==> work_days_spec(idx.skip(i), span) == work_days_spec(
            idx.skip(j),
            span,
        ),
{
    let rest = idx.skip(i);
    assert(forall|m: int| 0 <= m < rest.len() ==> #[trigger] rest[m] == idx[m + i]);
    lemma_day_run_len_eq(rest, j - i);
    assert(rest.skip(j - i) =~= idx.skip(j));
    assert(rest[0] == idx[i]);
    assert(rest[j - i - 1] == idx[j - 1]);
}

/// The qualifying working days are strictly increasing, bounded by the
/// first and last row's days, and each is a weekday that passes the span
/// test unless it is the index's last day.
pub proof fn lemma_work_days_sorted(idx: Seq<i64>, span: int)
    requires
        forall|i: int, j: int| 0 <= i < j < idx.len() ==> idx[i] <= idx[j],
        forall|i: int| 0 <= i < idx.len() ==> 0 <= #[trigger] idx[i],
    ensures
        forall|m1: int, m2: int|
            0 <= m1 < m2 < work_days_spec(idx, span).len() ==> work_days_spec(idx, span)[m1]
                < work_days_spec(idx, span)[m2],
        idx.len() > 0 ==> forall|m: int|
            0 <= m < work_days_spec(idx, span).len() ==> spec_day_of(idx[0])
                <= #[trigger] work_days_spec(idx, span)[m] as int,
        idx.len() > 0 ==> forall|m: int|
            0 <= m < work_days_spec(idx, span).len() ==> #[trigger] work_days_spec(
                idx,
                span,
            )[m] as int <= spec_day_of(idx[idx.len() - 1]),
        forall|m: int|
            0 <= m < work_days_spec(idx, span).len() ==> !spec_is_weekend(
                #[trigger] work_days_spec(idx, span)[m] as int,
            ),
        idx.len() > 0 ==> forall|m: int|
            0 <= m < work_days_spec(idx, span).len() ==> day_span_ok(
                idx,
                #[trigger] work_days_spec(idx, span)[m],
                span,
            ) || work_days_spec(idx, span)[m] as int == spec_day_of(idx[idx.len() - 1]),
    decreases idx.len(),
{
    if idx.len() > 0 {
        lemma_day_run_len_bounds(idx);
        let n = day_run_len(idx);
        let sk = idx.skip(n);
        assert(forall|m: int| 0 <= m < sk.len() ==> #[trigger] sk[m] == idx[m + n]);
        lemma_work_days_sorted(sk, span);
        let d = spec_day_of(idx[0]);
        let wd = work_days_spec(idx, span);
        let wdr = work_days_spec(sk, span);
        if sk.len() > 0 {
            vstd::arithmetic::div_mod::lemma_div_is_ordered(
                idx[0] as int,
                idx[n as int] as int,
                DAY_SECS as int,
            );
            assert(spec_day_of(sk[0]) > d);
            assert(sk[sk.len() - 1] == idx[idx.len() - 1]);
        } else {
            vstd::arithmetic::div_mod::lemma_div_is_ordered(
                idx[0] as int,
                idx[idx.len() - 1] as int,
                DAY_SECS as int,
            );
        }
        // Shifted span witnesses carry from the remainder to the whole.
        assert forall|m: int|
            0 <= m < wdr.len() && day_span_ok(sk, wdr[m], span) implies day_span_ok(
            idx,
            wdr[m],
            span,
        ) by {
            let (a, b) = choose|a: int, b: int|
                0 <= a <= b < sk.len() && spec_day_of(#[trigger] sk[a]) == wdr[m] as int
                    && spec_day_of(#[trigger] sk[b]) == wdr[m] as int && sk[b] - sk[a] >= span;
            assert(idx[a + n] == sk[a]);
            assert(idx[b + n] == sk[b]);
        }
        if !spec_is_weekend(d) && (idx[n - 1] - idx[0] >= span || n == idx.len()) {
            assert(wd == seq![d as i64] + wdr);
            assert(wd[0] == d as i64);
            assert(forall|m: int| 1 <= m < wd.len() ==> #[trigger] wd[m] == wdr[m - 1]);
            if idx[n - 1] - idx[0] >= span {
                assert(spec_day_of(idx[0]) == d && spec_day_of(idx[n - 1]) == d);
                assert(day_span_ok(idx, d as i64, span));
            } else {
                assert(n == idx.len());
                assert(d == spec_day_of(idx[idx.len() - 1]));
            }
        } else {
            assert(wd == wdr);
        }
    }
}

/// Trim correctness: trimming to the last `days` working days keeps
/// rows of at most `days` distinct calendar days, and every retained
/// day is a weekday that passes the working-hours span test — except
/// possibly the index's last day, which is exempt as the day still in
/// progress.
pub proof fn lemma_trim_correctness(idx: Seq<i64>, span: int, days: int)
    requires
        days >= 1,
        forall|i: int, j: int| 0 <= i < j < idx.len() ==> idx[i] <= idx[j],
        forall|i: int| 0 <= i < idx.len() ==> 0 <= #[trigger] idx[i],
    ensures
        ({
            let kd = retained_days(idx, span, days);
            let kept_days = filter_index_days(idx, kd).map_values(
                |t: i64| spec_day_of(t),
            ).to_set();
            &&& kept_days.finite()
            &&& kept_days.len() <= days
            &&& forall|d: int|
                kept_days.contains(d) ==> !spec_is_weekend(d) && (day_span_ok(
                    idx,
                    d as i64,
                    span,
                ) || (idx.len() > 0 && d == spec_day_of(idx[idx.len() - 1])))
        }),
{
    broadcast use vstd::seq_lib::seq_to_set_is_finite;

    let wd = work_days_spec(idx, span);
    lemma_work_days_sorted(idx, span);
    let kd = retained_days(idx, span, days);
    let kept = filter_index_days(idx, kd);
    let km = kept.map_values(|t: i64| spec_day_of(t));
    let kept_days = km.to_set();
    lemma_keep_pos_days_range(idx, kd, idx.len() as int);
    // Every kept day appears in the retained list, hence in the working
    // days, hence qualifies.
    assert forall|d: int| kept_days.contains(d) implies !spec_is_weekend(d) && (day_span_ok(
        idx,
        d as i64,
        span,
    ) || (idx.len() > 0 && d == spec_day_of(idx[idx.len() - 1]))) by {
        let m = choose|m: int| 0 <= m < km.len() && km[m] == d;
        let p = keep_pos_days(idx, kd)[m];
        assert(kept[m] == idx[p]);
        assert(day_member(kd, idx[p]));
        let k = choose|k: int| 0 <= k < kd.len() && kd[k] as int == spec_day_of(idx[p]);
        if wd.len() <= days {
            assert(kd[k] == wd[k]);
        } else {
            assert(kd[k] == wd[k + wd.len() - days]);
        }
        assert(idx.len() > 0) by {
            if idx.len() == 0 {
                assert(wd =~= Seq::<i64>::empty());
            }
        }
    }
    // Distinct kept days are bounded by the retained list's length.
    let target = kd.map_values(|d: i64| d as int);
    target.lemma_cardinality_of_set();
    assert forall|d: int| kept_days.contains(d) implies target.to_set().contains(d) by {
        let m = choose|m: int| 0 <= m < km.len() && km[m] == d;
        let p = keep_pos_days(idx, kd)[m];
        assert(kept[m] == idx[p]);
        assert(day_member(kd, idx[p]));
        let k = choose|k: int| 0 <= k < kd.len() && kd[k] as int == spec_day_of(idx[p]);
        assert(target[k] == d);
        assert(target.contains(d));
    }
    vstd::set_lib::lemma_len_subset(kept_days, target.to_set());
    assert(target.len() <= days);
}

/// A row predicate the table can be filtered by: rows at or after a day,
/// the regular-hours rows of the days before the last one, or the
/// extended-hours rows around them. Times of day are seconds since
/// midnight.
#[derive(Clone, Copy, Debug, PartialEq, Eq, Structural)]
pub enum RowPred {
    DayGe { day: i64 },
    RegularHours { last_day: i64, start: i64, end: i64 },
    ExtendedHours { last_day: i64, start: i64, end: i64 },
}

/// The second of the day of a non-negative instant.
pub open spec fn spec_tod_of(ts: i64) -> int {
    (ts as int) % (DAY_SECS as int)
}

/// Whether a row instant passes the predicate.
pub open spec fn row_pred_holds(p: RowPred, ts: i64) -> bool {
    match p {
        RowPred::DayGe { day } => spec_day_of(ts) >= day,
        RowPred::RegularHours { last_day, start, end } => spec_day_of(ts) < last_day && start
            <= spec_tod_of(ts) && spec_tod_of(ts) < end,
        RowPred::ExtendedHours { last_day, start, end } => (spec_day_of(ts) < last_day
            && spec_tod_of(ts) >= end) || (spec_day_of(ts) == last_day && spec_tod_of(ts) < start),
    }
}

/// Evaluate a row predicate on one instant.
pub fn eval_row_pred(p: RowPred, ts: i64) -> (r: bool)
    requires
        ts >= 0,
    ensures
        r == row_pred_holds(p, ts),
{
    let day = ts / DAY_SECS;
    let tod = ts % DAY_SECS;
    match p {
        RowPred::DayGe { day: d } => day >= d,
        RowPred::RegularHours { last_day, start, end } => day < last_day && start <= tod && tod
            < end,
        RowPred::ExtendedHours { last_day, start, end } => (day < last_day && tod >= end) || (day
            == last_day && tod < start),
    }
}

/// The positions of the rows a filter keeps, in order.
pub open spec fn keep_pos_prefix(idx: Seq<i64>, p: RowPred, n: int) -> Seq<int> {
    Seq::new(n as nat, |i: int| i).filter(|i: int| row_pred_holds(p, idx[i]))
}

pub open spec fn keep_pos(idx: Seq<i64>, p: RowPred) -> Seq<int> {
    keep_pos_prefix(idx, p, idx.len() as int)
}

/// The filtered index.
pub open spec fn filter_index(idx: Seq<i64>, p: RowPred) -> Seq<i64> {
    keep_pos(idx, p).map_values(|i: int| idx[i])
}

/// One filtered column.
pub open spec fn filter_data(idx: Seq<i64>, data: Seq<Option<i64>>, p: RowPred) -> Seq<Option<i64>> {
    keep_pos(idx, p).map_values(|i: int| data[i])
}

/// The kept positions lie within the index and ascend strictly.
pub proof fn lemma_keep_pos_range(idx: Seq<i64>, p: RowPred, n: int)
    requires
        0 <= n <= idx.len(),
    ensures
        forall|m: int|
            0 <= m < keep_pos_prefix(idx, p, n).len() ==> 0 <= #[trigger] keep_pos_prefix(
                idx,
                p,
                n,
            )[m] < n,
        forall|m1: int, m2: int|
            0 <= m1 < m2 < keep_pos_prefix(idx, p, n).len() ==> keep_pos_prefix(idx, p, n)[m1]
                < keep_pos_prefix(idx, p, n)[m2],
        forall|m: int|
            0 <= m < keep_pos_prefix(idx, p, n).len() ==> row_pred_holds(
                p,
                idx[keep_pos_prefix(idx, p, n)[m]],
            ),
    decreases n,
{
    reveal(Seq::filter);
    if n > 0 {
        lemma_keep_pos_prefix_step(idx, p, n - 1);
        lemma_keep_pos_range(idx, p, n - 1);
        let prev = keep_pos_prefix(idx, p, n - 1);
        let cur = keep_pos_prefix(idx, p, n);
        if row_pred_holds(p, idx[n - 1]) {
            assert(cur == prev.push(n - 1));
        } else {
            assert(cur == prev);
        }
    }
}

/// One unfolding of the kept-position prefix.
pub proof fn lemma_keep_pos_prefix_step(idx: Seq<i64>, p: RowPred, n: int)
    requires
        0 <= n,
    ensures
        keep_pos_prefix(idx, p, n + 1) == if row_pred_holds(p, idx[n]) {
            keep_pos_prefix(idx, p, n).push(n)
        } else {
            keep_pos_prefix(idx, p, n)
        },
{
    reveal(Seq::filter);
    let idxs_next = Seq::new((n + 1) as nat, |k: int| k);
    let idxs = Seq::new(n as nat, |k: int| k);
    assert(idxs_next.drop_last() =~= idxs);
    assert(idxs_next.last() == n);
}

/// Filtering keeps cells present and in range when the source column's
/// cells all are.
pub proof fn lemma_filter_data_some(idx: Seq<i64>, data: Seq<Option<i64>>, p: RowPred)
    requires
        data.len() == idx.len(),
        forall|k: int|
            0 <= k < data.len() ==> (#[trigger] data[k]) is Some && crate::candle::price_ok(
                data[k].unwrap(),
            ),
    ensures
        filter_data(idx, data, p).len() == filter_index(idx, p).len(),
        forall|k: int|
            0 <= k < filter_data(idx, data, p).len() ==> (#[trigger] filter_data(
                idx,
                data,
                p,
            )[k]) is Some && crate::candle::price_ok(filter_data(idx, data, p)[k].unwrap()),
{
    lemma_keep_pos_range(idx, p, idx.len() as int);
}

/// Whether a row instant's calendar day is one of the listed days.
pub open spec fn day_member(days: Seq<i64>, ts: i64) -> bool {
    exists|k: int| 0 <= k < days.len() && (#[trigger] days[k]) as int == spec_day_of(ts)
}

/// Whether the instant's day is in the list.
pub fn eval_day_member(days: &Vec<i64>, ts: i64) -> (r: bool)
    requires
        ts >= 0,
    ensures
        r == day_member(days@, ts),
{
    let d = ts / DAY_SECS;
    let n = days.len();
    let mut k: usize = 0;
    while k < n
        invariant
            0 <= k <= n,
            n == days@.len(),
            d == spec_day_of(ts),
            forall|m: int| 0 <= m < k ==> (#[trigger] days@[m]) as int != spec_day_of(ts),
        decreases n - k,
    {
        if days[k] == d {
            return true;
        }
        k = k + 1;
    }
    false
}

/// The positions of the rows whose day is listed, in order.
pub open spec fn keep_pos_days_prefix(idx: Seq<i64>, days: Seq<i64>, n: int) -> Seq<int> {
    Seq::new(n as nat, |i: int| i).filter(|i: int| day_member(days, idx[i]))
}

pub open spec fn keep_pos_days(idx: Seq<i64>, days: Seq<i64>) -> Seq<int> {
    keep_pos_days_prefix(idx, days, idx.len() as int)
}

/// The index filtered to the listed days.
pub open spec fn filter_index_days(idx: Seq<i64>, days: Seq<i64>) -> Seq<i64> {
    keep_pos_days(idx, days).map_values(|i: int| idx[i])
}

/// One column filtered to the listed days.
pub open spec fn filter_data_days(idx: Seq<i64>, data: Seq<Option<i64>>, days: Seq<i64>) -> Seq<
    Option<i64>,
> {
    keep_pos_days(idx, days).map_values(|i: int| data[i])
}

/// The day-kept positions lie within the index and ascend strictly.
pub proof fn lemma_keep_pos_days_range(idx: Seq<i64>, days: Seq<i64>, n: int)
    requires
        0 <= n <= idx.len(),
    ensures
        forall|m: int|
            0 <= m < keep_pos_days_prefix(idx, days, n).len() ==> 0 <= #[trigger] keep_pos_days_prefix(
                idx,
                days,
                n,
            )[m] < n,
        forall|m1: int, m2: int|
            0 <= m1 < m2 < keep_pos_days_prefix(idx, days, n).len() ==> keep_pos_days_prefix(
                idx,
                days,
                n,
            )[m1] < keep_pos_days_prefix(idx, days, n)[m2],
        forall|m: int|
            0 <= m < keep_pos_days_prefix(idx, days, n).len() ==> day_member(
                days,
                idx[keep_pos_days_prefix(idx, days, n)[m]],
            ),
    decreases n,
{
    reveal(Seq::filter);
    if n > 0 {
        lemma_keep_pos_days_prefix_step(idx, days, n - 1);
        lemma_keep_pos_days_range(idx, days, n - 1);
        let prev = keep_pos_days_prefix(idx, days, n - 1);
        let cur = keep_pos_days_prefix(idx, days, n);
        if day_member(days, idx[n - 1]) {
            assert(cur == prev.push(n - 1));
        } else {
            assert(cur == prev);
        }
    }
}

/// One unfolding of the day-kept prefix.
pub proof fn lemma_keep_pos_days_prefix_step(idx: Seq<i64>, days: Seq<i64>, n: int)
    requires
        0 <= n,
    ensures
        keep_pos_days_prefix(idx, days, n + 1) == if day_member(days, idx[n]) {
            keep_pos_days_prefix(idx, days, n).push(n)
        } else {
            keep_pos_days_prefix(idx, days, n)
        },
{
    reveal(Seq::filter);
    let idxs_next = Seq::new((n + 1) as nat, |k: int| k);
    let idxs = Seq::new(n as nat, |k: int| k);
    assert(idxs_next.drop_last() =~= idxs);
    assert(idxs_next.last() == n);
}

/// Day filtering keeps cells present and in range when the source
/// column's cells all are.
pub proof fn lemma_filter_data_some_days(idx: Seq<i64>, data: Seq<Option<i64>>, days: Seq<i64>)
    requires
        data.len() == idx.len(),
        forall|k: int|
            0 <= k < data.len() ==> (#[trigger] data[k]) is Some && crate::candle::price_ok(
                data[k].unwrap(),
            ),
    ensures
        filter_data_days(idx, data, days).len() == filter_index_days(idx, days).len(),
        forall|k: int|
            0 <= k < filter_data_days(idx, data, days).len() ==> (#[trigger] filter_data_days(
                idx,
                data,
                days,
            )[k]) is Some && crate::candle::price_ok(filter_data_days(idx, data, days)[k].unwrap()),
{
    lemma_keep_pos_days_range(idx, days, idx.len() as int);
}

impl DataFrame {
    /// Keep only the rows whose instant passes the predicate; every
    /// column is cut down in step with the index, names and order stay.
    pub fn filtered(&self, p: RowPred) -> (r: DataFrame)
        requires
            df_wf(*self),
            df_times_nonneg(*self),
        ensures
            df_wf(r),
            r.index@ == filter_index(self.index@, p),
            r.cols@.len() == self.cols@.len(),
            forall|j: int|
                0 <= j < self.cols@.len() ==> (#[trigger] r.cols@[j]).name@
                    == self.cols@[j].name@,
            forall|j: int|
                0 <= j < self.cols@.len() ==> (#[trigger] r.cols@[j]).data@ == filter_data(
                    self.index@,
                    self.cols@[j].data@,
                    p,
                ),
            df_times_nonneg(r),
            df_sorted(*self) ==> df_sorted(r),
    {
        let ghost idx = self.index@;
        let len = self.index.len();
        let mut newindex: Vec<i64> = Vec::new();
        let mut i: usize = 0;
        proof {
            reveal(Seq::filter);
            assert(keep_pos_prefix(idx, p, 0) =~= Seq::<int>::empty());
            assert(newindex@ =~= keep_pos_prefix(idx, p, 0).map_values(|k: int| idx[k]));
        }
        while i < len
            invariant
                0 <= i <= len,
                len == idx.len(),
                idx == self.index@,
                df_times_nonneg(*self),
                newindex@ == keep_pos_prefix(idx, p, i as int).map_values(|k: int| idx[k]),
            decreases len - i,
        {
            proof {
                lemma_keep_pos_prefix_step(idx, p, i as int);
                lemma_keep_pos_range(idx, p, i as int);
            }
            let ts = self.index[i];
            let ghost prev = newindex@;
            if eval_row_pred(p, ts) {
                newindex.push(ts);
                proof {
                    assert(keep_pos_prefix(idx, p, i + 1).map_values(|k: int| idx[k]) =~= prev.push(
                        idx[i as int],
                    ));
                }
            } else {
                assert(keep_pos_prefix(idx, p, i + 1) == keep_pos_prefix(idx, p, i as int));
            }
            i = i + 1;
        }
        let ncols = self.cols.len();
        let mut newcols: Vec<Column> = Vec::new();
        let mut j: usize = 0;
        while j < ncols
            invariant
                0 <= j <= ncols,
                ncols == self.cols@.len(),
                idx == self.index@,
                df_wf(*self),
                df_times_nonneg(*self),
                newcols@.len() == j,
                forall|m: int|
                    0 <= m < j ==> (#[trigger] newcols@[m]).name@ == self.cols@[m].name@,
                forall|m: int|
                    0 <= m < j ==> (#[trigger] newcols@[m]).data@ == filter_data(
                        idx,
                        self.cols@[m].data@,
                        p,
                    ),
            decreases ncols - j,
        {
            let ghost data = self.cols@[j as int].data@;
            let mut newdata: Vec<Option<i64>> = Vec::new();
            let mut i: usize = 0;
            proof {
                reveal(Seq::filter);
                assert(keep_pos_prefix(idx, p, 0) =~= Seq::<int>::empty());
                assert(newdata@ =~= keep_pos_prefix(idx, p, 0).map_values(|k: int| data[k]));
            }
            while i < self.index.len()
                invariant
                    0 <= i <= idx.len(),
                    idx == self.index@,
                    j < ncols,
                    ncols == self.cols@.len(),
                    df_wf(*self),
                    df_times_nonneg(*self),
                    data == self.cols@[j as int].data@,
                    data.len() == idx.len(),
                    newdata@ == keep_pos_prefix(idx, p, i as int).map_values(|k: int| data[k]),
                decreases idx.len() - i,
            {
                proof {
                    lemma_keep_pos_prefix_step(idx, p, i as int);
                    lemma_keep_pos_range(idx, p, i as int);
                }
                let ghost prev = newdata@;
                if eval_row_pred(p, self.index[i]) {
                    newdata.push(self.cols[j].data[i]);
                    proof {
                        assert(keep_pos_prefix(idx, p, i + 1).map_values(|k: int| data[k])
                            =~= prev.push(data[i as int]));
                    }
                }
                i = i + 1;
            }
            let name = self.cols[j].name.clone();
            newcols.push(Column { name, data: newdata });
            j = j + 1;
        }
        let r = DataFrame { index: newindex, cols: newcols };
        proof {
            lemma_keep_pos_range(idx, p, idx.len() as int);
            assert forall|j1: int, j2: int|
                0 <= j1 < j2 < r.cols@.len() implies r.cols@[j1].name@ != r.cols@[j2].name@ by {
                assert(self.cols@[j1].name@ != self.cols@[j2].name@);
            }
        }
        r
    }

    pub fn filtered_days(&self, days: &Vec<i64>) -> (r: DataFrame)
        requires
            df_wf(*self),
            df_times_nonneg(*self),
        ensures
            df_wf(r),
            r.index@ == filter_index_days(self.index@, days@),
            r.cols@.len() == self.cols@.len(),
            forall|j: int|
                0 <= j < self.cols@.len() ==> (#[trigger] r.cols@[j]).name@
                    == self.cols@[j].name@,
            forall|j: int|
                0 <= j < self.cols@.len() ==> (#[trigger] r.cols@[j]).data@ == filter_data_days(
                    self.index@,
                    self.cols@[j].data@,
                    days@,
                ),
            df_times_nonneg(r),
            df_sorted(*self) ==> df_sorted(r),
    {
        let ghost idx = self.index@;
        let len = self.index.len();
        let mut newindex: Vec<i64> = Vec::new();
        let mut i: usize = 0;
        proof {
            reveal(Seq::filter);
            assert(keep_pos_days_prefix(idx, days@, 0) =~= Seq::<int>::empty());
            assert(newindex@ =~= keep_pos_days_prefix(idx, days@, 0).map_values(|k: int| idx[k]));
        }
        while i < len
            invariant
                0 <= i <= len,
                len == idx.len(),
                idx == self.index@,
                df_times_nonneg(*self),
                newindex@ == keep_pos_days_prefix(idx, days@, i as int).map_values(|k: int| idx[k]),
            decreases len - i,
        {
            proof {
                lemma_keep_pos_days_prefix_step(idx, days@, i as int);
                lemma_keep_pos_days_range(idx, days@, i as int);
            }
            let ts = self.index[i];
            let ghost prev = newindex@;
            if eval_day_member(days, ts) {
                newindex.push(ts);
                proof {
                    assert(keep_pos_days_prefix(idx, days@, i + 1).map_values(|k: int| idx[k]) =~= prev.push(
                        idx[i as int],
                    ));
                }
            } else {
                assert(keep_pos_days_prefix(idx, days@, i + 1) == keep_pos_days_prefix(idx, days@, i as int));
            }
            i = i + 1;
        }
        let ncols = self.cols.len();
        let mut newcols: Vec<Column> = Vec::new();
        let mut j: usize = 0;
        while j < ncols
            invariant
                0 <= j <= ncols,
                ncols == self.cols@.len(),
                idx == self.index@,
                df_wf(*self),
                df_times_nonneg(*self),
                newcols@.len() == j,
                forall|m: int|
                    0 <= m < j ==> (#[trigger] newcols@[m]).name@ == self.cols@[m].name@,
                forall|m: int|
                    0 <= m < j ==> (#[trigger] newcols@[m]).data@ == filter_data_days(
                        idx,
                        self.cols@[m].data@,
                        days@,
                    ),
            decreases ncols - j,
        {
            let ghost data = self.cols@[j as int].data@;
            let mut newdata: Vec<Option<i64>> = Vec::new();
            let mut i: usize = 0;
            proof {
                reveal(Seq::filter);
                assert(keep_pos_days_prefix(idx, days@, 0) =~= Seq::<int>::empty());
                assert(newdata@ =~= keep_pos_days_prefix(idx, days@, 0).map_values(|k: int| data[k]));
            }
            while i < self.index.len()
                invariant
                    0 <= i <= idx.len(),
                    idx == self.index@,
                    j < ncols,
                    ncols == self.cols@.len(),
                    df_wf(*self),
                    df_times_nonneg(*self),
                    data == self.cols@[j as int].data@,
                    data.len() == idx.len(),
                    newdata@ == keep_pos_days_prefix(idx, days@, i as int).map_values(|k: int| data[k]),
                decreases idx.len() - i,
            {
                proof {
                    lemma_keep_pos_days_prefix_step(idx, days@, i as int);
                    lemma_keep_pos_days_range(idx, days@, i as int);
                }
                let ghost prev = newdata@;
                if eval_day_member(days, self.index[i]) {
                    newdata.push(self.cols[j].data[i]);
                    proof {
                        assert(keep_pos_days_prefix(idx, days@, i + 1).map_values(|k: int| data[k])
                            =~= prev.push(data[i as int]));
                    }
                }
                i = i + 1;
            }
            let name = self.cols[j].name.clone();
            newcols.push(Column { name, data: newdata });
            j = j + 1;
        }
        let r = DataFrame { index: newindex, cols: newcols };
        proof {
            lemma_keep_pos_days_range(idx, days@, idx.len() as int);
            assert forall|j1: int, j2: int|
                0 <= j1 < j2 < r.cols@.len() implies r.cols@[j1].name@ != r.cols@[j2].name@ by {
                assert(self.cols@[j1].name@ != self.cols@[j2].name@);
            }
        }
        r
    }

    /// The five price columns of a candle log, indexed by candle time:
    /// open, low, high, close and volume, in declaration order, with no
    /// gaps.
    pub fn from_candles(candles: &Vec<Candle>) -> (r: DataFrame)
        requires
            forall|i: int|
                0 <= i < candles@.len() ==> (#[trigger] candles@[i]).volume <= i64::MAX,
        ensures
            df_wf(r),
            r.index@.len() == candles@.len(),
            forall|i: int|
                0 <= i < candles@.len() ==> r.index@[i] == (#[trigger] candles@[i]).time,
            r.cols@.len() == 5,
            r.cols@[0].name@ == "open"@,
            r.cols@[1].name@ == "low"@,
            r.cols@[2].name@ == "high"@,
            r.cols@[3].name@ == "close"@,
            r.cols@[4].name@ == "volume"@,
            forall|i: int|
                0 <= i < candles@.len() ==> r.cols@[0].data@[i] == Some(
                    (#[trigger] candles@[i]).open,
                ),
            forall|i: int|
                0 <= i < candles@.len() ==> r.cols@[1].data@[i] == Some(
                    (#[trigger] candles@[i]).low,
                ),
            forall|i: int|
                0 <= i < candles@.len() ==> r.cols@[2].data@[i] == Some(
                    (#[trigger] candles@[i]).high,
                ),
            forall|i: int|
                0 <= i < candles@.len() ==> r.cols@[3].data@[i] == Some(
                    (#[trigger] candles@[i]).close,
                ),
            forall|i: int|
                0 <= i < candles@.len() ==> r.cols@[4].data@[i] == Some(
                    (#[trigger] candles@[i]).volume as i64,
                ),
    {
        let len = candles.len();
        let mut index: Vec<i64> = Vec::new();
        let mut opens: Vec<Option<i64>> = Vec::new();
        let mut lows: Vec<Option<i64>> = Vec::new();
        let mut highs: Vec<Option<i64>> = Vec::new();
        let mut closes: Vec<Option<i64>> = Vec::new();
        let mut volumes: Vec<Option<i64>> = Vec::new();
        let mut i: usize = 0;
        while i < len
            invariant
                0 <= i <= len,
                len == candles@.len(),
                forall|k: int|
                    0 <= k < len ==> (#[trigger] candles@[k]).volume <= i64::MAX,
                index@.len() == i,
                opens@.len() == i,
                lows@.len() == i,
                highs@.len() == i,
                closes@.len() == i,
                volumes@.len() == i,
                forall|k: int| 0 <= k < i ==> index@[k] == (#[trigger] candles@[k]).time,
                forall|k: int| 0 <= k < i ==> opens@[k] == Some((#[trigger] candles@[k]).open),
                forall|k: int| 0 <= k < i ==> lows@[k] == Some((#[trigger] candles@[k]).low),
                forall|k: int| 0 <= k < i ==> highs@[k] == Some((#[trigger] candles@[k]).high),
                forall|k: int| 0 <= k < i ==> closes@[k] == Some((#[trigger] candles@[k]).close),
                forall|k: int|
                    0 <= k < i ==> volumes@[k] == Some((#[trigger] candles@[k]).volume as i64),
            decreases len - i,
        {
            let c = candles[i];
            index.push(c.time);
            opens.push(Some(c.open));
            lows.push(Some(c.low));
            highs.push(Some(c.high));
            closes.push(Some(c.close));
            volumes.push(Some(c.volume as i64));
            i = i + 1;
        }
        let mut cols: Vec<Column> = Vec::new();
        cols.push(Column { name: String::from_str("open"), data: opens });
        cols.push(Column { name: String::from_str("low"), data: lows });
        cols.push(Column { name: String::from_str("high"), data: highs });
        cols.push(Column { name: String::from_str("close"), data: closes });
        cols.push(Column { name: String::from_str("volume"), data: volumes });
        let r = DataFrame { index, cols };
        proof {
            reveal_strlit("open");
            reveal_strlit("low");
            reveal_strlit("high");
            reveal_strlit("close");
            reveal_strlit("volume");
            assert("open"@.len() == 4);
            assert("low"@.len() == 3);
            assert("high"@.len() == 4);
            assert("close"@.len() == 5);
            assert("volume"@.len() == 6);
            assert("open"@[0] == 'o');
            assert("high"@[0] == 'h');
            assert(r.cols@[0].name@ != r.cols@[1].name@);
            assert(r.cols@[0].name@ != r.cols@[2].name@);
            assert(r.cols@[0].name@ != r.cols@[3].name@);
            assert(r.cols@[0].name@ != r.cols@[4].name@);
            assert(r.cols@[1].name@ != r.cols@[2].name@);
            assert(r.cols@[1].name@ != r.cols@[3].name@);
            assert(r.cols@[1].name@ != r.cols@[4].name@);
            assert(r.cols@[2].name@ != r.cols@[3].name@);
            assert(r.cols@[2].name@ != r.cols@[4].name@);
            assert(r.cols@[3].name@ != r.cols@[4].name@);
            assert(df_wf(r));
        }
        r
    }

    /// Keep the rows of the most recent `days` qualifying working days:
    /// weekdays whose rows span at least `min_span` seconds. With no
    /// more qualifying days than asked for, every row stays.
    pub fn trim_working_days(&self, days: usize, min_span: i64) -> (r: DataFrame)
        requires
            days >= 1,
            df_wf(*self),
            df_times_nonneg(*self),
            df_sorted(*self),
        ensures
            ({
                let kd = retained_days(self.index@, min_span as int, days as int);
                &&& df_wf(r)
                &&& df_times_nonneg(r)
                &&& df_sorted(r)
                &&& r.index@ == filter_index_days(self.index@, kd)
                &&& r.cols@.len() == self.cols@.len()
                &&& forall|j: int|
                    0 <= j < self.cols@.len() ==> (#[trigger] r.cols@[j]).name@
                        == self.cols@[j].name@
                &&& forall|j: int|
                    0 <= j < self.cols@.len() ==> (#[trigger] r.cols@[j]).data@
                        == filter_data_days(self.index@, self.cols@[j].data@, kd)
            }),
    {
        let ghost idx = self.index@;
        let ghost span = min_span as int;
        let len = self.index.len();
        let mut wd: Vec<i64> = Vec::new();
        let mut i: usize = 0;
        proof {
            assert(idx.skip(0) =~= idx);
            assert(wd@ + work_days_spec(idx, span) =~= work_days_spec(idx, span));
        }
        while i < len
            invariant
                0 <= i <= len,
                len == idx.len(),
                idx == self.index@,
                span == min_span as int,
                df_times_nonneg(*self),
                df_sorted(*self),
                work_days_spec(idx, span) == wd@ + work_days_spec(idx.skip(i as int), span),
            decreases len - i,
        {
            let day_i = self.index[i] / DAY_SECS;
            let mut j: usize = i + 1;
            while j < len && self.index[j] / DAY_SECS == day_i
                invariant
                    i < j <= len,
                    i < len,
                    len == idx.len(),
                    idx == self.index@,
                    df_times_nonneg(*self),
                    day_i == spec_day_of(idx[i as int]),
                    forall|m: int|
                        i <= m < j ==> spec_day_of(#[trigger] idx[m]) == spec_day_of(idx[i as int]),
                decreases len - j,
            {
                j = j + 1;
            }
            proof {
                lemma_work_days_step(idx, span, i as int, j as int);
            }
            let weekday = (day_i + 3) % 7;
            let qualifies = weekday != 5 && weekday != 6 && (self.index[j - 1] - self.index[i]
                >= min_span || j == len);
            let ghost prev = wd@;
            if qualifies {
                wd.push(day_i);
                proof {
                    assert(wd@ =~= prev.push(spec_day_of(idx[i as int]) as i64));
                    assert((prev.push(spec_day_of(idx[i as int]) as i64)) + work_days_spec(
                        idx.skip(j as int),
                        span,
                    ) =~= prev + (seq![spec_day_of(idx[i as int]) as i64] + work_days_spec(
                        idx.skip(j as int),
                        span,
                    )));
                }
            }
            i = j;
        }
        proof {
            assert(idx.skip(len as int) =~= Seq::<i64>::empty());
            assert(wd@ + Seq::<i64>::empty() =~= wd@);
            assert(wd@ == work_days_spec(idx, span));
        }
        // Keep only the last `days` qualifying days.
        let keep_from = if wd.len() <= days {
            0
        } else {
            wd.len() - days
        };
        let mut kept: Vec<i64> = Vec::new();
        let mut k: usize = keep_from;
        while k < wd.len()
            invariant
                keep_from <= k <= wd@.len(),
                kept@.len() == k - keep_from,
                forall|m: int| 0 <= m < kept@.len() ==> kept@[m] == wd@[keep_from + m],
            decreases wd@.len() - k,
        {
            kept.push(wd[k]);
            k = k + 1;
        }
        proof {
            if wd@.len() <= days {
                assert(kept@ =~= work_days_spec(idx, span));
            } else {
                assert(kept@ =~= work_days_spec(idx, span).skip(
                    work_days_spec(idx, span).len() - days as int,
                ));
            }
            assert(kept@ == retained_days(idx, span, days as int));
        }
        self.filtered_days(&kept)
    }
}

impl DataFrame {
    /// A value copy of the whole table.
    pub fn duplicate(&self) -> (r: DataFrame)
        ensures
            r.index@ == self.index@,
            r.cols@.len() == self.cols@.len(),
            forall|j: int|
                0 <= j < self.cols@.len() ==> (#[trigger] r.cols@[j]).name@
                    == self.cols@[j].name@,
            forall|j: int|
                0 <= j < self.cols@.len() ==> (#[trigger] r.cols@[j]).data@
                    == self.cols@[j].data@,
    {
        let n = self.index.len();
        let mut index: Vec<i64> = Vec::new();
        let mut i: usize = 0;
        while i < n
            invariant
                0 <= i <= n,
                n == self.index@.len(),
                index@.len() == i,
                forall|k: int| 0 <= k < i ==> index@[k] == self.index@[k],
            decreases n - i,
        {
            index.push(self.index[i]);
            i = i + 1;
        }
        proof {
            assert(index@ =~= self.index@);
        }
        let m = self.cols.len();
        let mut cols: Vec<Column> = Vec::new();
        let mut j: usize = 0;
        while j < m
            invariant
                0 <= j <= m,
                m == self.cols@.len(),
                cols@.len() == j,
                forall|k: int|
                    0 <= k < j ==> (#[trigger] cols@[k]).name@ == self.cols@[k].name@,
                forall|k: int|
                    0 <= k < j ==> (#[trigger] cols@[k]).data@ == self.cols@[k].data@,
            decreases m - j,
        {
            let ghost data0 = self.cols@[j as int].data@;
            let mut data: Vec<Option<i64>> = Vec::new();
            let mut k: usize = 0;
            while k < self.cols[j].data.len()
                invariant
                    j < m,
                    m == self.cols@.len(),
                    data0 == self.cols@[j as int].data@,
                    0 <= k <= data0.len(),
                    data@.len() == k,
                    forall|q: int| 0 <= q < k ==> data@[q] == data0[q],
                decreases data0.len() - k,
            {
                data.push(self.cols[j].data[k]);
                k = k + 1;
            }
            proof {
                assert(data@ =~= data0);
            }
            let name = self.cols[j].name.clone();
            cols.push(Column { name, data });
            j = j + 1;
        }
        DataFrame { index, cols }
    }
}

} // verus!
