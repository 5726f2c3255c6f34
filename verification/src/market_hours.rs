//! Market trading hours: the session window the volume analytics work
//! with, and its auto-detection from historical per-day candle batches.

use vstd::prelude::*;

verus! {

/// A trading session: opening and closing wall-clock times.
#[derive(Clone, Copy, Debug, PartialEq, Eq, Structural)]
pub struct MarketHours {
    pub open_hour: u32,
    pub open_minute: u32,
    pub close_hour: u32,
    pub close_minute: u32,
}

pub open spec fn spec_total_trading_minutes(h: MarketHours) -> int {
    let open = h.open_hour * 60 + h.open_minute;
    let close = h.close_hour * 60 + h.close_minute;
    if close >= open {
        close - open
    } else {
        0
    }
}

impl MarketHours {
    /// Standard US stock market hours, expressed in the host market's
    /// wall clock.
    pub fn us_stock_market() -> (r: MarketHours)
        ensures
            r == (MarketHours { open_hour: 6, open_minute: 30, close_hour: 13, close_minute: 0 }),
    {
        MarketHours { open_hour: 6, open_minute: 30, close_hour: 13, close_minute: 0 }
    }

    /// Custom market hours.
    pub fn custom(open_hour: u32, open_minute: u32, close_hour: u32, close_minute: u32) -> (r:
        MarketHours)
        ensures
            r == (MarketHours { open_hour, open_minute, close_hour, close_minute }),
    {
        MarketHours { open_hour, open_minute, close_hour, close_minute }
    }

    /// Total trading minutes per day, never negative.
    pub fn total_trading_minutes(&self) -> (r: i64)
        ensures
            r == spec_total_trading_minutes(*self),
            r >= 0,
    {
        let open_minutes = (self.open_hour as i64) * 60 + (self.open_minute as i64);
        let close_minutes = (self.close_hour as i64) * 60 + (self.close_minute as i64);
        if close_minutes >= open_minutes {
            close_minutes - open_minutes
        } else {
            0
        }
    }

    /// The expected number of five-minute candles per day.
    pub fn expected_candles_per_day(&self) -> (r: usize)
        requires
            self.open_hour <= 24,
            self.open_minute <= 60,
            self.close_hour <= 24,
            self.close_minute <= 60,
        ensures
            r == spec_total_trading_minutes(*self) / 5,
    {
        (self.total_trading_minutes() / 5) as usize
    }
}

/// How often a value occurs.
pub open spec fn count_of(s: Seq<u32>, v: u32) -> int {
    s.filter(|x: u32| x == v).len() as int
}

/// Round minutes down to the nearest five-minute boundary.
pub fn round_to_5min(minutes: u32) -> (r: u32)
    ensures
        r == (minutes / 5) * 5,
        r <= minutes,
{
    proof {
        vstd::arithmetic::div_mod::lemma_fundamental_div_mod(minutes as int, 5);
        vstd::arithmetic::div_mod::lemma_mod_bound(minutes as int, 5);
        vstd::arithmetic::mul::lemma_mul_is_commutative(minutes as int / 5, 5);
    }
    (minutes / 5) * 5
}

/// The value at the given permille rank of a sorted slice; zero for an
/// empty one.
pub fn percentile(sorted_data: &Vec<u32>, permille: u64) -> (r: u32)
    requires
        permille <= 1000,
    ensures
        sorted_data@.len() == 0 ==> r == 0,
        sorted_data@.len() > 0 ==> ({
            let idx = if sorted_data@.len() * permille / 1000 < sorted_data@.len() {
                sorted_data@.len() * permille / 1000
            } else {
                sorted_data@.len() - 1
            };
            r == sorted_data@[idx as int]
        }),
{
    let n = sorted_data.len();
    if n == 0 {
        return 0;
    }
    proof {
        assert(n * permille <= n * 1000) by (nonlinear_arith)
            requires
                permille <= 1000,
                n >= 0,
        ;
        vstd::arithmetic::div_mod::lemma_div_is_ordered(
            (n * permille) as int,
            (n * 1000) as int,
            1000,
        );
        vstd::arithmetic::mul::lemma_mul_is_commutative(n as int, 1000);
        vstd::arithmetic::div_mod::lemma_div_multiples_vanish(n as int, 1000);
    }
    let idx = ((n as u128) * (permille as u128) / 1000) as usize;
    let clamped = if idx < n {
        idx
    } else {
        n - 1
    };
    sorted_data[clamped]
}

/// The most frequent value of a slice, zero for an empty one: no value
/// occurs more often than the result. Ties keep the value whose count
/// wins first in scan order.
pub fn find_mode(data: &Vec<u32>) -> (r: u32)
    ensures
        data@.len() == 0 ==> r == 0,
        data@.len() > 0 ==> data@.contains(r),
        forall|v: u32| count_of(data@, v) <= count_of(data@, r),
{
    let n = data.len();
    if n == 0 {
        proof {
            reveal(Seq::filter);
            assert forall|v: u32| #[trigger] count_of(data@, v) <= count_of(data@, 0u32) by {
                assert(data@.filter(|x: u32| x == v) =~= Seq::<u32>::empty());
                assert(data@.filter(|x: u32| x == 0u32) =~= Seq::<u32>::empty());
            }
        }
        return 0;
    }
    let mut best: u32 = data[0];
    let mut best_count: usize = 0;
    let mut i: usize = 0;
    while i < n
        invariant
            0 <= i <= n,
            n == data@.len(),
            n > 0,
            i > 0 ==> data@.contains(best),
            i > 0 ==> best_count == count_of(data@, best),
            i > 0 ==> best_count >= 1,
            i == 0 ==> best_count == 0,
            forall|m: int| 0 <= m < i ==> count_of(data@, #[trigger] data@[m]) <= best_count,
        decreases n - i,
    {
        // Count every occurrence of the candidate in the whole slice.
        let cand = data[i];
        let mut cnt: usize = 0;
        let mut j: usize = 0;
        proof {
            reveal(Seq::filter);
            assert(data@.take(0).filter(|x: u32| x == cand) =~= Seq::<u32>::empty());
        }
        while j < n
            invariant
                0 <= j <= n,
                i < n,
                n == data@.len(),
                cand == data@[i as int],
                cnt == count_of(data@.take(j as int), cand),
                cnt <= j,
            decreases n - j,
        {
            proof {
                lemma_count_step(data@, j as int, cand);
            }
            if data[j] == cand {
                cnt = cnt + 1;
            }
            j = j + 1;
        }
        proof {
            assert(data@.take(n as int) =~= data@);
            if i == 0 {
                lemma_count_step(data@, 0, cand);
                assert(data@.take(0).filter(|x: u32| x == cand) =~= Seq::<u32>::empty()) by {
                    reveal(Seq::filter);
                }
                lemma_count_mono_take(data@, 1, cand);
                assert(cnt >= 1);
            }
        }
        if cnt > best_count {
            best = cand;
            best_count = cnt;
        }
        i = i + 1;
    }
    proof {
        assert forall|v: u32| #[trigger] count_of(data@, v) <= count_of(data@, best) by {
            lemma_count_nonneg(data@, v);
            if count_of(data@, v) > 0 {
                lemma_count_pos_contains(data@, v);
                let w = choose|w: int| 0 <= w < data@.len() && data@[w] == v;
                assert(count_of(data@, data@[w]) <= best_count);
            }
        }
    }
    best
}

/// A positive count means the value occurs.
proof fn lemma_count_pos_contains(s: Seq<u32>, v: u32)
    requires
        count_of(s, v) > 0,
    ensures
        s.contains(v),
    decreases s.len(),
{
    reveal(Seq::filter);
    if s.len() > 0 {
        if s.last() == v {
        } else {
            lemma_count_pos_contains(s.drop_last(), v);
            let w = choose|k: int| 0 <= k < s.drop_last().len() && s.drop_last()[k] == v;
            assert(s[w] == v);
        }
    }
}

/// Counts are non-negative.
proof fn lemma_count_nonneg(s: Seq<u32>, v: u32)
    ensures
        count_of(s, v) >= 0,
{
}

/// Counting over a prefix never exceeds counting over the whole.
proof fn lemma_count_mono_take(s: Seq<u32>, i: int, v: u32)
    requires
        0 <= i <= s.len(),
    ensures
        count_of(s.take(i), v) <= count_of(s, v),
    decreases s.len() - i,
{
    if i < s.len() {
        lemma_count_step(s, i, v);
        lemma_count_mono_take(s, i + 1, v);
    } else {
        assert(s.take(i) =~= s);
    }
}

/// One unfolding of the occurrence count at a prefix boundary.
proof fn lemma_count_step(s: Seq<u32>, j: int, v: u32)
    requires
        0 <= j < s.len(),
    ensures
        count_of(s.take(j + 1), v) == count_of(s.take(j), v) + (if s[j] == v {
            1int
        } else {
            0int
        }),
{
    reveal(Seq::filter);
    assert(s.take(j + 1).drop_last() =~= s.take(j));
    assert(s.take(j + 1).last() == s[j]);
    s.take(j + 1).lemma_filter_len_push(|x: u32| x == v, s[j]);
}

} // verus!
