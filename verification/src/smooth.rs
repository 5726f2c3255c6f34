//! Gaussian smoothing of a price series.
//!
//! A kernel is a vector of fixed-point weights that sum exactly to
//! [`KERNEL_SCALE`]; a smoothed value is the weighted sum of its
//! neighbourhood divided (flooring) by that scale. The first and last
//! `kernel/2` values are left untouched, as is the whole series when it is
//! shorter than the kernel.

use vstd::arithmetic::div_mod::{
    lemma_div_is_ordered, lemma_div_multiples_vanish, lemma_fundamental_div_mod,
    lemma_fundamental_div_mod_converse, lemma_mod_bound,
};
use vstd::arithmetic::mul::lemma_mul_is_commutative;
use vstd::prelude::*;

use crate::candle::price_ok;

verus! {

/// One unit of kernel weight is a millionth.
pub const KERNEL_SCALE: u64 = 1_000_000;

/// Sum of the first `j` kernel weights.
pub open spec fn ksum(kernel: Seq<u64>, j: int) -> int
    decreases j,
{
    if j <= 0 {
        0
    } else {
        ksum(kernel, j - 1) + kernel[j - 1]
    }
}

/// A well-formed kernel: odd length, weights summing exactly to
/// `KERNEL_SCALE`.
pub open spec fn kernel_wf(kernel: Seq<u64>) -> bool {
    &&& kernel.len() % 2 == 1
    &&& ksum(kernel, kernel.len() as int) == KERNEL_SCALE
}

/// The convolution sum of the first `j` kernel taps at centre `i`.
pub open spec fn conv_sum(data: Seq<i64>, kernel: Seq<u64>, i: int, j: int) -> int
    decreases j,
{
    if j <= 0 {
        0
    } else {
        conv_sum(data, kernel, i, j - 1) + data[i + (j - 1) - kernel.len() / 2] * kernel[j - 1]
    }
}

/// The smoothed value at an interior index: the full convolution sum,
/// floor-divided by the kernel scale.
pub open spec fn conv_at(data: Seq<i64>, kernel: Seq<u64>, i: int) -> int {
    conv_sum(data, kernel, i, kernel.len() as int) / (KERNEL_SCALE as int)
}

/// An index the smoothing may touch: it has a full kernel neighbourhood.
pub open spec fn interior(data_len: int, kernel_len: int, i: int) -> bool {
    kernel_len / 2 <= i && i + kernel_len / 2 < data_len
}

pub open spec fn prices_in_range(s: Seq<i64>) -> bool {
    forall|i: int| 0 <= i < s.len() ==> price_ok(#[trigger] s[i])
}

/// The whole smoothed series: convolution at interior points, the input
/// itself at the boundary.
pub open spec fn smooth_spec(data: Seq<i64>, kernel: Seq<u64>) -> Seq<i64> {
    Seq::new(
        data.len(),
        |i: int|
            if interior(data.len() as int, kernel.len() as int, i) {
                conv_at(data, kernel, i) as i64
            } else {
                data[i]
            },
    )
}

/// Partial kernel sums never exceed the total.
proof fn lemma_ksum_mono(kernel: Seq<u64>, a: int, b: int)
    requires
        0 <= a <= b,
    ensures
        ksum(kernel, a) <= ksum(kernel, b),
    decreases b - a,
{
    if a < b {
        lemma_ksum_mono(kernel, a, b - 1);
    }
}

/// Convolution partial sums are bounded by the partial kernel mass times
/// the price bound.
proof fn lemma_conv_sum_bound(data: Seq<i64>, kernel: Seq<u64>, i: int, j: int)
    requires
        prices_in_range(data),
        0 <= j <= kernel.len(),
        i - kernel.len() / 2 >= 0,
        i + kernel.len() / 2 < data.len(),
    ensures
        -1_000_000_000_000 * ksum(kernel, j) <= conv_sum(data, kernel, i, j)
            <= 1_000_000_000_000 * ksum(kernel, j),
    decreases j,
{
    if j > 0 {
        lemma_conv_sum_bound(data, kernel, i, j - 1);
        let d = data[i + (j - 1) - kernel.len() / 2];
        let w = kernel[j - 1] as int;
        assert(price_ok(d));
        assert(d * w <= 1_000_000_000_000 * w) by (nonlinear_arith)
            requires
                d <= 1_000_000_000_000,
                w >= 0,
        ;
        assert(-1_000_000_000_000 * w <= d * w) by (nonlinear_arith)
            requires
                d >= -1_000_000_000_000,
                w >= 0,
        ;
    }
}

/// A smoothed series stays within the price range of its input bound.
pub proof fn lemma_smooth_spec_in_range(data: Seq<i64>, kernel: Seq<u64>)
    requires
        prices_in_range(data),
        kernel_wf(kernel),
    ensures
        prices_in_range(smooth_spec(data, kernel)),
        smooth_spec(data, kernel).len() == data.len(),
{
    let sp = smooth_spec(data, kernel);
    assert forall|i: int| 0 <= i < sp.len() implies price_ok(#[trigger] sp[i]) by {
        if interior(data.len() as int, kernel.len() as int, i) {
            lemma_conv_sum_bound(data, kernel, i, kernel.len() as int);
            lemma_div_scale_bounds(conv_sum(data, kernel, i, kernel.len() as int));
        }
    }
}

/// A convolution sum bounded by the full kernel mass divides down to the
/// price range.
proof fn lemma_div_scale_bounds(sum: int)
    requires
        -1_000_000_000_000 * (KERNEL_SCALE as int) <= sum <= 1_000_000_000_000 * (
        KERNEL_SCALE as int),
    ensures
        -1_000_000_000_000 <= sum / (KERNEL_SCALE as int) <= 1_000_000_000_000,
{
    let d = KERNEL_SCALE as int;
    lemma_div_is_ordered(sum, 1_000_000_000_000 * d, d);
    lemma_div_is_ordered(-1_000_000_000_000 * d, sum, d);
    lemma_mul_is_commutative(1_000_000_000_000, d);
    lemma_div_multiples_vanish(1_000_000_000_000, d);
    lemma_mul_is_commutative(-1_000_000_000_000, d);
    lemma_div_multiples_vanish(-1_000_000_000_000, d);
}

/// Floor-divide a convolution sum by the kernel scale.
fn div_scale(sum: i64) -> (r: i64)
    requires
        -9_000_000_000_000_000_000 + (KERNEL_SCALE as i64) < sum
            < 9_000_000_000_000_000_000 - (KERNEL_SCALE as i64),
    ensures
        r == sum as int / (KERNEL_SCALE as int),
{
    if sum >= 0 {
        sum / (KERNEL_SCALE as i64)
    } else {
        let neg = -sum;
        let up = (neg + (KERNEL_SCALE as i64) - 1) / (KERNEL_SCALE as i64);
        proof {
            let n = neg as int;
            let d = KERNEL_SCALE as int;
            lemma_fundamental_div_mod(n, d);
            lemma_mod_bound(n, d);
            let q = n / d;
            let r = n % d;
            assert(n == q * d + r) by {
                lemma_mul_is_commutative(q, d);
            }
            if r == 0 {
                lemma_fundamental_div_mod_converse(n + d - 1, d, q, d - 1);
                lemma_fundamental_div_mod_converse(-n, d, -q, 0);
            } else {
                lemma_fundamental_div_mod_converse(n + d - 1, d, q + 1, r - 1);
                lemma_fundamental_div_mod_converse(-n, d, -q - 1, d - r);
            }
        }
        -up
    }
}

/// Smooth a series with a well-formed kernel: interior points become the
/// kernel-weighted average of their neighbourhood, boundary points (and
/// series shorter than the kernel) stay as they are, and the length never
/// changes.
pub fn gaussian_smooth(data: &Vec<i64>, kernel: &Vec<u64>) -> (out: Vec<i64>)
    requires
        kernel_wf(kernel@),
        prices_in_range(data@),
    ensures
        out@.len() == data@.len(),
        forall|i: int|
            0 <= i < data@.len() && !interior(data@.len() as int, kernel@.len() as int, i)
                ==> out@[i] == data@[i],
        forall|i: int|
            0 <= i < data@.len() && interior(data@.len() as int, kernel@.len() as int, i)
                ==> out@[i] == conv_at(data@, kernel@, i),
        out@ == smooth_spec(data@, kernel@),
        prices_in_range(out@),
{
    let len = data.len();
    let klen = kernel.len();
    let half = klen / 2;
    let mut out: Vec<i64> = Vec::new();
    let mut i: usize = 0;
    while i < len
        invariant
            0 <= i <= len,
            len == data@.len(),
            klen == kernel@.len(),
            half == klen / 2,
            kernel_wf(kernel@),
            prices_in_range(data@),
            out@.len() == i,
            prices_in_range(out@),
            forall|m: int|
                0 <= m < i && !interior(len as int, klen as int, m) ==> out@[m] == data@[m],
            forall|m: int|
                0 <= m < i && interior(len as int, klen as int, m) ==> out@[m] == conv_at(
                    data@,
                    kernel@,
                    m,
                ),
        decreases len - i,
    {
        if i >= half && half < len - i {
            let mut sum: i64 = 0;
            let mut t: usize = 0;
            proof {
                lemma_ksum_mono(kernel@, 0, klen as int);
            }
            while t < klen
                invariant
                    0 <= t <= klen,
                    len == data@.len(),
                    klen == kernel@.len(),
                    half == klen / 2,
                    kernel_wf(kernel@),
                    prices_in_range(data@),
                    half <= i,
                    i + half < len,
                    sum == conv_sum(data@, kernel@, i as int, t as int),
                decreases klen - t,
            {
                proof {
                    lemma_conv_sum_bound(data@, kernel@, i as int, t as int);
                    lemma_conv_sum_bound(data@, kernel@, i as int, t + 1);
                    lemma_ksum_mono(kernel@, t as int, klen as int);
                    lemma_ksum_mono(kernel@, t + 1, klen as int);
                    lemma_ksum_mono(kernel@, 0, t as int);
                    let d = data@[i + t - klen / 2];
                    let w = kernel@[t as int] as int;
                    assert(d * w <= 1_000_000_000_000 * w) by (nonlinear_arith)
                        requires
                            d <= 1_000_000_000_000,
                            w >= 0,
                    ;
                    assert(-1_000_000_000_000 * w <= d * w) by (nonlinear_arith)
                        requires
                            d >= -1_000_000_000_000,
                            w >= 0,
                    ;
                }
                sum = sum + data[i - half + t] * (kernel[t] as i64);
                t = t + 1;
            }
            proof {
                lemma_conv_sum_bound(data@, kernel@, i as int, klen as int);
                lemma_div_scale_bounds(sum as int);
            }
            out.push(div_scale(sum));
        } else {
            out.push(data[i]);
        }
        i = i + 1;
    }
    proof {
        assert(out@ =~= smooth_spec(data@, kernel@));
    }
    out
}

/// The kernel for a Gaussian of standard deviation one over five taps:
/// `exp(-0.5 x^2)` for `x` in `-2..=2`, normalised so the weights sum
/// exactly to `KERNEL_SCALE`.
pub fn gaussian_kernel_sigma_one() -> (kernel: Vec<u64>)
    ensures
        kernel@ =~= seq![54489u64, 244201u64, 402620u64, 244201u64, 54489u64],
        kernel_wf(kernel@),
{
    let kernel: Vec<u64> = vec![54489, 244201, 402620, 244201, 54489];
    proof {
        assert(ksum(kernel@, 0) == 0);
        assert(ksum(kernel@, 1) == 54489);
        assert(ksum(kernel@, 2) == 298690);
        assert(ksum(kernel@, 3) == 701310);
        assert(ksum(kernel@, 4) == 945511);
        assert(ksum(kernel@, 5) == KERNEL_SCALE);
    }
    kernel
}

/// The kernel for a Gaussian of standard deviation one half over three
/// taps: `exp(-2 x^2)` for `x` in `-1..=1`, normalised so the weights sum
/// exactly to `KERNEL_SCALE`.
pub fn gaussian_kernel_sigma_half() -> (kernel: Vec<u64>)
    ensures
        kernel@ =~= seq![106507u64, 786986u64, 106507u64],
        kernel_wf(kernel@),
{
    let kernel: Vec<u64> = vec![106507, 786986, 106507];
    proof {
        assert(ksum(kernel@, 0) == 0);
        assert(ksum(kernel@, 1) == 106507);
        assert(ksum(kernel@, 2) == 893493);
        assert(ksum(kernel@, 3) == KERNEL_SCALE);
    }
    kernel
}

} // verus!
