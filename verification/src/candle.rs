//! The candle model: an interval summary of trading activity, with prices
//! held as fixed-point integers and the time as a naive wall-clock
//! timestamp in seconds.

use vstd::prelude::*;

verus! {

/// One OHLCV candle. Prices are in fixed-point price units, `time` is a
/// naive wall-clock timestamp in seconds, `duration` is in seconds.
#[derive(Clone, Copy, Debug, PartialEq, Eq, Structural)]
pub struct Candle {
    pub open: i64,
    pub low: i64,
    pub high: i64,
    pub close: i64,
    pub volume: u64,
    pub time: i64,
    pub duration: i64,
}

impl Candle {
    /// Well-formedness: the low bounds both body ends from below, the high
    /// from above, the candle lies at a non-negative instant and covers a
    /// positive span.
    pub open spec fn wf(self) -> bool {
        &&& self.low <= self.open <= self.high
        &&& self.low <= self.close <= self.high
        &&& self.time >= 0
        &&& self.duration > 0
    }

    /// A doji has a body of at most half a percent of its total range.
    /// `|close - open| / (high - low) * 100 <= 0.5` restated exactly over
    /// integers: `200 * |close - open| <= high - low`.
    pub open spec fn spec_is_doji(self) -> bool {
        high_sub_low_range(self) == 0 || 200 * abs_i64(self.close - self.open) <= high_sub_low_range(self)
    }

    pub open spec fn spec_is_red(self) -> bool {
        !self.spec_is_doji() && self.open > self.close
    }

    pub open spec fn spec_is_green(self) -> bool {
        !self.spec_is_doji() && self.open < self.close
    }

    #[verifier::when_used_as_spec(spec_is_doji)]
    pub fn is_doji(self) -> (r: bool)
        requires
            price_ok(self.open),
            price_ok(self.low),
            price_ok(self.high),
            price_ok(self.close),
        ensures
            r == self.spec_is_doji(),
    {
        let total_range: i64 = self.high - self.low;
        if total_range == 0 {
            return true;
        }
        200 * self.body_size() <= total_range
    }

    #[verifier::when_used_as_spec(spec_is_red)]
    pub fn is_red(self) -> (r: bool)
        requires
            price_ok(self.open),
            price_ok(self.low),
            price_ok(self.high),
            price_ok(self.close),
        ensures
            r == self.spec_is_red(),
    {
        if self.is_doji() {
            return false;
        }
        self.open > self.close
    }

    #[verifier::when_used_as_spec(spec_is_green)]
    pub fn is_green(self) -> (r: bool)
        requires
            price_ok(self.open),
            price_ok(self.low),
            price_ok(self.high),
            price_ok(self.close),
        ensures
            r == self.spec_is_green(),
    {
        if self.is_doji() {
            return false;
        }
        self.open < self.close
    }

    /// The absolute size of the candle body.
    pub fn body_size(self) -> (r: i64)
        requires
            price_ok(self.open),
            price_ok(self.close),
        ensures
            r == abs_i64(self.close - self.open),
    {
        if self.close >= self.open {
            self.close - self.open
        } else {
            self.open - self.close
        }
    }

    /// Mirror the candle about the zero price: negate open and close and
    /// swap the negated low and high. Time, volume and duration stay.
    pub open spec fn spec_invert(self) -> Candle
        recommends
            price_ok(self.open),
            price_ok(self.low),
            price_ok(self.high),
            price_ok(self.close),
    {
        Candle {
            open: (-self.open) as i64,
            close: (-self.close) as i64,
            low: (-self.high) as i64,
            high: (-self.low) as i64,
            volume: self.volume,
            time: self.time,
            duration: self.duration,
        }
    }

    #[verifier::when_used_as_spec(spec_invert)]
    pub fn invert(self) -> (r: Candle)
        requires
            price_ok(self.open),
            price_ok(self.low),
            price_ok(self.high),
            price_ok(self.close),
        ensures
            r == self.spec_invert(),
    {
        Candle {
            open: -self.open,
            close: -self.close,
            low: -self.high,
            high: -self.low,
            volume: self.volume,
            time: self.time,
            duration: self.duration,
        }
    }
}

/// The total range of a candle as a spec-level integer.
pub open spec fn high_sub_low_range(c: Candle) -> int {
    c.high - c.low
}

pub open spec fn abs_i64(x: int) -> int {
    if x >= 0 {
        x
    } else {
        -x
    }
}

/// Prices the engine works with stay well inside `i64`, so differences,
/// small products and sums of a few terms cannot overflow.
pub open spec fn price_ok(p: i64) -> bool {
    -1_000_000_000_000 <= p <= 1_000_000_000_000
}

/// Instants the engine works with: non-negative and far below any
/// overflow boundary.
pub open spec fn time_ok(t: i64) -> bool {
    0 <= t <= 4_000_000_000
}

/// Inversion is an involution: mirroring a candle twice gives it back.
pub proof fn lemma_invert_involution(c: Candle)
    requires
        price_ok(c.open),
        price_ok(c.low),
        price_ok(c.high),
        price_ok(c.close),
    ensures
        c.spec_invert().spec_invert() == c,
{
}

/// Inversion swaps red and green and preserves doji-ness.
pub proof fn lemma_invert_swaps_colour(c: Candle)
    requires
        price_ok(c.open),
        price_ok(c.low),
        price_ok(c.high),
        price_ok(c.close),
    ensures
        c.spec_invert().spec_is_doji() == c.spec_is_doji(),
        c.spec_invert().spec_is_red() == c.spec_is_green(),
        c.spec_invert().spec_is_green() == c.spec_is_red(),
{
}

} // verus!
