//! The timeframe grammar of the configuration: `"1M"`, `"15Min"`,
//! `"1Hour"`, `"1Day"`, case-insensitive — a digit string and a unit
//! suffix, where a bare trailing `m` that is not `min` means minutes.

use vstd::prelude::*;
use vstd::string::StringSliceAdditionalSpecFns;

verus! {

/// ASCII lowercase of one byte.
pub open spec fn lower_byte(b: u8) -> u8 {
    if 65 <= b <= 90 {
        (b + 32) as u8
    } else {
        b
    }
}

pub open spec fn lower_bytes(s: Seq<u8>) -> Seq<u8> {
    s.map_values(|b: u8| lower_byte(b))
}

pub open spec fn is_digit(b: u8) -> bool {
    48 <= b <= 57
}

/// The value of a digit string.
pub open spec fn digits_val(s: Seq<u8>) -> int
    decreases s.len(),
{
    if s.len() == 0 {
        0
    } else {
        digits_val(s.drop_last()) * 10 + (s.last() - 48)
    }
}

pub open spec fn all_digits(s: Seq<u8>) -> bool {
    forall|i: int| 0 <= i < s.len() ==> is_digit(#[trigger] s[i])
}

/// A parsed non-negative number: a non-empty digit string whose value
/// fits the engine's word.
pub open spec fn parse_num(s: Seq<u8>) -> Option<int> {
    if s.len() > 0 && all_digits(s) && digits_val(s) <= i64::MAX {
        Some(digits_val(s))
    } else {
        None
    }
}

pub open spec fn ends_with(s: Seq<u8>, suffix: Seq<u8>) -> bool {
    s.len() >= suffix.len() && s.skip(s.len() - suffix.len()) == suffix
}

/// The number part scaled by the unit, or nothing on overflow.
pub open spec fn scaled(num: Option<int>, unit: int) -> Option<i64> {
    match num {
        Option::None => None,
        Option::Some(n) => if n * unit <= i64::MAX {
            Some((n * unit) as i64)
        } else {
            None
        },
    }
}

pub open spec fn suffix_m() -> Seq<u8> {
    seq![109u8]
}

pub open spec fn suffix_min() -> Seq<u8> {
    seq![109u8, 105u8, 110u8]
}

pub open spec fn suffix_hour() -> Seq<u8> {
    seq![104u8, 111u8, 117u8, 114u8]
}

pub open spec fn suffix_day() -> Seq<u8> {
    seq![100u8, 97u8, 121u8]
}

pub open spec fn suffix_days() -> Seq<u8> {
    seq![100u8, 97u8, 121u8, 115u8]
}

/// What the duration grammar accepts, in seconds: a digit string and a
/// unit suffix after case folding; a bare trailing `m` that is not `min`
/// is minutes.
pub open spec fn parse_duration_spec(raw: Seq<u8>) -> Option<i64> {
    let s = lower_bytes(raw);
    if ends_with(s, suffix_m()) && !ends_with(s, suffix_min()) {
        scaled(parse_num(s.take(s.len() - 1)), 60)
    } else if ends_with(s, suffix_min()) {
        scaled(parse_num(s.take(s.len() - 3)), 60)
    } else if ends_with(s, suffix_hour()) {
        scaled(parse_num(s.take(s.len() - 4)), 3600)
    } else if ends_with(s, suffix_day()) {
        if ends_with(s, suffix_days()) {
            scaled(parse_num(s.take(s.len() - 4)), 86400)
        } else {
            scaled(parse_num(s.take(s.len() - 3)), 86400)
        }
    } else {
        None
    }
}

/// Appending digits never shrinks the value.
proof fn lemma_digits_val_mono(s: Seq<u8>, j: int)
    requires
        0 <= j <= s.len(),
        all_digits(s),
    ensures
        0 <= digits_val(s.take(j)),
        digits_val(s.take(j)) <= digits_val(s),
    decreases s.len() - j,
{
    if j < s.len() {
        lemma_digits_val_mono(s, j + 1);
        assert(s.take(j + 1).drop_last() =~= s.take(j));
        assert(s.take(j + 1).last() == s[j]);
        lemma_digits_val_nonneg(s.take(j));
    } else {
        assert(s.take(j) =~= s);
        lemma_digits_val_nonneg(s);
    }
}

proof fn lemma_digits_val_nonneg(s: Seq<u8>)
    requires
        all_digits(s),
    ensures
        digits_val(s) >= 0,
    decreases s.len(),
{
    if s.len() > 0 {
        assert(forall|i: int| 0 <= i < s.len() - 1 ==> #[trigger] s.drop_last()[i] == s[i]);
        lemma_digits_val_nonneg(s.drop_last());
    }
}

/// Parse a non-empty digit prefix of bytes; nothing on a stray byte or
/// an overflowing value.
fn parse_num_exec(s: &Vec<u8>) -> (r: Option<i64>)
    ensures
        match parse_num(s@) {
            Option::None => r is None,
            Option::Some(v) => r == Some(v as i64),
        },
        r matches Some(x) ==> x >= 0,
{
    let n = s.len();
    if n == 0 {
        return None;
    }
    let mut acc: i64 = 0;
    let mut j: usize = 0;
    while j < n
        invariant
            0 <= j <= n,
            n == s@.len(),
            forall|i: int| 0 <= i < j ==> is_digit(#[trigger] s@[i]),
            acc == digits_val(s@.take(j as int)),
            acc >= 0,
        decreases n - j,
    {
        let b = s[j];
        if !(48 <= b && b <= 57) {
            proof {
                assert(!all_digits(s@));
            }
            return None;
        }
        let next = (acc as i128) * 10 + ((b - 48) as i128);
        proof {
            assert(s@.take(j + 1).drop_last() =~= s@.take(j as int));
            assert(s@.take(j + 1).last() == s@[j as int]);
        }
        if next > (i64::MAX as i128) {
            proof {
                if all_digits(s@) {
                    lemma_digits_val_mono(s@, j + 1);
                }
            }
            return None;
        }
        acc = next as i64;
        j = j + 1;
    }
    proof {
        assert(s@.take(n as int) =~= s@);
    }
    Some(acc)
}

/// Whether the byte vector ends with the given suffix.
fn ends_with_exec(s: &Vec<u8>, suffix: &Vec<u8>) -> (r: bool)
    ensures
        r == ends_with(s@, suffix@),
{
    let n = s.len();
    let m = suffix.len();
    if n < m {
        return false;
    }
    let mut k: usize = 0;
    while k < m
        invariant
            0 <= k <= m,
            m <= n,
            n == s@.len(),
            m == suffix@.len(),
            forall|i: int| 0 <= i < k ==> s@[n - m + i] == suffix@[i],
        decreases m - k,
    {
        if s[n - m + k] != suffix[k] {
            proof {
                assert(s@.skip(n - m)[k as int] == s@[n - m + k]);
            }
            return false;
        }
        k = k + 1;
    }
    proof {
        assert(s@.skip(n - m) =~= suffix@);
    }
    true
}

fn take_prefix(s: &Vec<u8>, n: usize) -> (r: Vec<u8>)
    requires
        n <= s@.len(),
    ensures
        r@ == s@.take(n as int),
{
    let mut r: Vec<u8> = Vec::new();
    let mut i: usize = 0;
    while i < n
        invariant
            0 <= i <= n,
            n <= s@.len(),
            r@.len() == i,
            forall|k: int| 0 <= k < i ==> r@[k] == s@[k],
        decreases n - i,
    {
        r.push(s[i]);
        i = i + 1;
    }
    proof {
        assert(r@ =~= s@.take(n as int));
    }
    r
}

/// Parse a configuration timeframe into seconds, as the grammar says:
/// a digit string and a case-folded unit suffix.
pub fn parse_duration(input: &str) -> (r: Option<i64>)
    ensures
        r == parse_duration_spec(input.spec_bytes()),
{
    let raw = input.as_bytes_vec();
    let mut s: Vec<u8> = Vec::new();
    let mut i: usize = 0;
    while i < raw.len()
        invariant
            0 <= i <= raw@.len(),
            s@.len() == i,
            forall|k: int| 0 <= k < i ==> s@[k] == lower_byte(#[trigger] raw@[k]),
        decreases raw@.len() - i,
    {
        let b = raw[i];
        if 65 <= b && b <= 90 {
            s.push(b + 32);
        } else {
            s.push(b);
        }
        i = i + 1;
    }
    proof {
        assert(s@ =~= lower_bytes(raw@));
    }
    let m_suf: Vec<u8> = vec![109];
    let min_suf: Vec<u8> = vec![109, 105, 110];
    let hour_suf: Vec<u8> = vec![104, 111, 117, 114];
    let day_suf: Vec<u8> = vec![100, 97, 121];
    let days_suf: Vec<u8> = vec![100, 97, 121, 115];
    proof {
        assert(m_suf@ =~= suffix_m());
        assert(min_suf@ =~= suffix_min());
        assert(hour_suf@ =~= suffix_hour());
        assert(day_suf@ =~= suffix_day());
        assert(days_suf@ =~= suffix_days());
    }
    let n = s.len();
    if ends_with_exec(&s, &m_suf) && !ends_with_exec(&s, &min_suf) {
        let num = parse_num_exec(&take_prefix(&s, n - 1));
        proof {
            lemma_parse_num_nonneg(s@.take(n - 1));
        }
        scale(num, 60)
    } else if ends_with_exec(&s, &min_suf) {
        let num = parse_num_exec(&take_prefix(&s, n - 3));
        proof {
            lemma_parse_num_nonneg(s@.take(n - 3));
        }
        scale(num, 60)
    } else if ends_with_exec(&s, &hour_suf) {
        let num = parse_num_exec(&take_prefix(&s, n - 4));
        proof {
            lemma_parse_num_nonneg(s@.take(n - 4));
        }
        scale(num, 3600)
    } else if ends_with_exec(&s, &day_suf) {
        if ends_with_exec(&s, &days_suf) {
            let num = parse_num_exec(&take_prefix(&s, n - 4));
            proof {
                lemma_parse_num_nonneg(s@.take(n - 4));
            }
            scale(num, 86400)
        } else {
            let num = parse_num_exec(&take_prefix(&s, n - 3));
            proof {
                lemma_parse_num_nonneg(s@.take(n - 3));
            }
            scale(num, 86400)
        }
    } else {
        None
    }
}

/// A parsed number is never negative.
proof fn lemma_parse_num_nonneg(s: Seq<u8>)
    ensures
        parse_num(s) matches Some(v) ==> 0 <= v <= i64::MAX,
{
    if s.len() > 0 && all_digits(s) {
        lemma_digits_val_nonneg(s);
    }
}

/// Scale a parsed number by a unit, watching for overflow.
fn scale(num: Option<i64>, unit: i64) -> (r: Option<i64>)
    requires
        1 <= unit <= 86400,
        num matches Some(v) ==> v >= 0,
    ensures
        ({
            let spec_num = match num {
                Option::None => None,
                Option::Some(v) => Some(v as int),
            };
            r == scaled(spec_num, unit as int)
        }),
{
    match num {
        Option::None => None,
        Option::Some(v) => {
            proof {
                assert((v as int) * (unit as int) <= 9_223_372_036_854_775_807int * 86400)
                    by (nonlinear_arith)
                    requires
                        0 <= v <= 9_223_372_036_854_775_807int,
                        1 <= unit <= 86400,
                ;
                assert((v as int) * (unit as int) >= 0) by (nonlinear_arith)
                    requires
                        v >= 0,
                        unit >= 1,
                ;
            }
            let wide = (v as i128) * (unit as i128);
            if wide <= (i64::MAX as i128) {
                Some(wide as i64)
            } else {
                None
            }
        },
    }
}

} // verus!
