//! Stateless numeric routines used by the statistical overlays:
//! arithmetic mean, sample standard deviation, and the per-bar
//! representative price.

use vstd::prelude::*;
use crate::data::OHLC;
use crate::data::PRICE_LIMIT;
use crate::data::bar_in_bounds;
use crate::data::price_in_bounds;
use vstd::arithmetic::div_mod::lemma_div_is_ordered;
use vstd::arithmetic::div_mod::lemma_div_by_multiple;
use vstd::arithmetic::mul::lemma_mul_inequality;

verus! {

/// Most bars a series may hold; keeps every accumulated sum inside
/// the machine integer types.
pub const MAX_BARS: usize = 0x10_0000;

/// Floor division for a positive divisor, written out by cases so the
/// executable code can mirror it with unsigned machine division.
pub open spec fn div_floor(a: int, b: int) -> int
    recommends
        b > 0,
{
    if a >= 0 {
        a / b
    } else {
        -(((-a) + b - 1) / b)
    }
}

/// `div_floor` keeps a dividend's bounds: if `-m * b <= a <= m * b`
/// then the quotient lies in `[-m, m]`.
pub proof fn lemma_div_floor_bounds(a: int, b: int, m: int)
    requires
        b > 0,
        m >= 0,
        -(m * b) <= a <= m * b,
    ensures
        -m <= div_floor(a, b) <= m,
{
    if a >= 0 {
        lemma_div_is_ordered(a, m * b, b);
        lemma_div_by_multiple(m, b);
        vstd::arithmetic::div_mod::lemma_div_pos_is_pos(a, b);
    } else {
        let n = (-a) + b - 1;
        assert(n >= 0);
        assert(n <= m * b + b - 1);
        lemma_div_is_ordered(n, m * b + b - 1, b);
        assert((m * b + b - 1) / b == m) by {
            assert(m * b + b - 1 == b * m + (b - 1)) by (nonlinear_arith);
            vstd::arithmetic::div_mod::lemma_div_multiples_vanish_fancy(m, b - 1, b);
        }
        vstd::arithmetic::div_mod::lemma_div_pos_is_pos(n, b);
    }
}

/// The floor multiple below `a`: `b * div_floor(a, b)` lies within
/// one divisor below `a`.
pub proof fn lemma_div_floor_mul_bounds(a: int, b: int)
    requires
        b > 0,
    ensures
        b * div_floor(a, b) <= a,
        a - b < b * div_floor(a, b),
{
    if a >= 0 {
        vstd::arithmetic::div_mod::lemma_fundamental_div_mod(a, b);
    } else {
        let n = (-a) + b - 1;
        vstd::arithmetic::div_mod::lemma_fundamental_div_mod(n, b);
        let q = n / b;
        assert(b * (-q) == -(b * q)) by (nonlinear_arith);
    }
}

/// Floor division of `a` by a positive `b`, computed with unsigned
/// machine division on the magnitude.
pub fn div_floor_exec(a: i128, b: i128) -> (r: i128)
    requires
        -0x1000_0000_0000_0000_0000_0000_0000 <= a <= 0x1000_0000_0000_0000_0000_0000_0000,
        0 < b <= 0x1_0000_0000_0000_0000,
    ensures
        r == div_floor(a as int, b as int),
{
    if a >= 0 {
        ((a as u128) / (b as u128)) as i128
    } else {
        let m: u128 = (-a) as u128;
        let q: u128 = (m + (b as u128 - 1)) / (b as u128);
        proof {
            vstd::arithmetic::div_mod::lemma_div_nonincreasing((m + (b - 1)) as int, b as int);
            vstd::arithmetic::div_mod::lemma_div_pos_is_pos((m + (b - 1)) as int, b as int);
        }
        -(q as i128)
    }
}

/// The sum of a sequence of prices.
pub open spec fn spec_sum(s: Seq<i64>) -> int
    decreases s.len(),
{
    if s.len() == 0 {
        0
    } else {
        spec_sum(s.drop_last()) + s.last()
    }
}

/// A sum of bounded values is bounded by the count times the bound.
pub proof fn lemma_sum_bounds(s: Seq<i64>, m: int)
    requires
        m >= 0,
        forall|k: int| 0 <= k < s.len() ==> -m <= #[trigger] s[k] <= m,
    ensures
        -(s.len() * m) <= spec_sum(s) <= s.len() * m,
    decreases s.len(),
{
    if s.len() == 0 {
    } else {
        lemma_sum_bounds(s.drop_last(), m);
        assert((s.len() - 1) * m + m == s.len() * m) by (nonlinear_arith);
        assert(-((s.len() - 1) * m) - m == -(s.len() * m)) by (nonlinear_arith);
    }
}

/// The truncating arithmetic mean of a non-empty sequence of prices.
pub open spec fn spec_mean(s: Seq<i64>) -> int
    recommends
        s.len() > 0,
{
    div_floor(spec_sum(s), s.len() as int)
}

/// The mean of prices within the price bound stays within it.
pub proof fn lemma_mean_in_bounds(s: Seq<i64>)
    requires
        s.len() > 0,
        forall|k: int| 0 <= k < s.len() ==> price_in_bounds(#[trigger] s[k]),
    ensures
        -PRICE_LIMIT <= spec_mean(s) <= PRICE_LIMIT,
{
    lemma_sum_bounds(s, PRICE_LIMIT as int);
    assert(s.len() * PRICE_LIMIT == PRICE_LIMIT * s.len()) by (nonlinear_arith);
    lemma_div_floor_bounds(spec_sum(s), s.len() as int, PRICE_LIMIT as int);
}

/// The arithmetic mean of the prices, rounded toward negative
/// infinity.
pub fn avg(prices: &Vec<i64>) -> (r: i64)
    requires
        0 < prices@.len() <= MAX_BARS,
        forall|k: int| 0 <= k < prices@.len() ==> price_in_bounds(#[trigger] prices@[k]),
    ensures
        r == spec_mean(prices@),
        price_in_bounds(r),
{
    let ghost s = prices@;
    let mut sum: i128 = 0;
    let mut i: usize = 0;
    while i < prices.len()
        invariant
            s == prices@,
            0 <= i <= s.len(),
            s.len() <= MAX_BARS,
            forall|k: int| 0 <= k < s.len() ==> price_in_bounds(#[trigger] s[k]),
            sum == spec_sum(s.take(i as int)),
            -(i * PRICE_LIMIT) <= sum <= i * PRICE_LIMIT,
        decreases s.len() - i,
    {
        proof {
            let t = s.take(i as int + 1);
            assert(t.drop_last() =~= s.take(i as int));
            assert(t.last() == s[i as int]);
            assert((i + 1) * PRICE_LIMIT == i * PRICE_LIMIT + PRICE_LIMIT) by (nonlinear_arith);
        }
        sum = sum + prices[i] as i128;
        i = i + 1;
    }
    proof {
        assert(s.take(s.len() as int) =~= s);
        lemma_mean_in_bounds(s);
        lemma_mul_inequality(s.len() as int, MAX_BARS as int, PRICE_LIMIT as int);
    }
    let r = div_floor_exec(sum, prices.len() as i128);
    r as i64
}

/// The sum of squared deviations of each price from `m`.
pub open spec fn spec_sq_dev_sum(s: Seq<i64>, m: int) -> int
    decreases s.len(),
{
    if s.len() == 0 {
        0
    } else {
        spec_sq_dev_sum(s.drop_last(), m) + (m - s.last()) * (m - s.last())
    }
}

/// Squared deviations are non-negative and, for bounded prices and a
/// bounded centre, bounded by the count times the largest square.
pub proof fn lemma_sq_dev_sum_bounds(s: Seq<i64>, m: int)
    requires
        -PRICE_LIMIT <= m <= PRICE_LIMIT,
        forall|k: int| 0 <= k < s.len() ==> price_in_bounds(#[trigger] s[k]),
    ensures
        0 <= spec_sq_dev_sum(s, m) <= s.len() * (4 * PRICE_LIMIT * PRICE_LIMIT),
    decreases s.len(),
{
    if s.len() > 0 {
        lemma_sq_dev_sum_bounds(s.drop_last(), m);
        let d = m - s.last();
        assert(-2 * PRICE_LIMIT <= d <= 2 * PRICE_LIMIT);
        assert(0 <= d * d <= 4 * PRICE_LIMIT * PRICE_LIMIT) by (nonlinear_arith)
            requires
                -2 * PRICE_LIMIT <= d <= 2 * PRICE_LIMIT,
        ;
        assert((s.len() - 1) * (4 * PRICE_LIMIT * PRICE_LIMIT) + 4 * PRICE_LIMIT * PRICE_LIMIT
            == s.len() * (4 * PRICE_LIMIT * PRICE_LIMIT)) by (nonlinear_arith);
    }
}

/// A sum of squared deviations is never negative.
pub proof fn lemma_sq_dev_sum_nonneg(s: Seq<i64>, m: int)
    ensures
        spec_sq_dev_sum(s, m) >= 0,
    decreases s.len(),
{
    if s.len() > 0 {
        lemma_sq_dev_sum_nonneg(s.drop_last(), m);
        let d = m - s.last();
        assert(d * d >= 0) by (nonlinear_arith);
    }
}

/// The sample standard deviation is never negative.
pub proof fn lemma_std_dev_nonneg(s: Seq<i64>)
    ensures
        spec_std_dev(s) >= 0,
{
    if s.len() > 1 {
        lemma_sq_dev_sum_nonneg(s, spec_mean(s));
        vstd::arithmetic::div_mod::lemma_div_pos_is_pos(
            spec_sq_dev_sum(s, spec_mean(s)),
            s.len() - 1,
        );
        lemma_isqrt_correct(spec_variance(s));
    }
}

/// The sample variance of a sequence of prices: squared deviations
/// from the truncating mean, divided by `len - 1`.
pub open spec fn spec_variance(s: Seq<i64>) -> int
    recommends
        s.len() > 1,
{
    spec_sq_dev_sum(s, spec_mean(s)) / (s.len() - 1)
}

/// The integer square root of a non-negative number, defined by
/// halving the number's digits: the root of `n` is twice the root of
/// `n / 4`, corrected up by one where that still fits.
pub open spec fn spec_isqrt(n: int) -> int
    decreases n,
{
    if n <= 0 {
        0
    } else {
        let r = 2 * spec_isqrt(n / 4);
        if (r + 1) * (r + 1) <= n {
            r + 1
        } else {
            r
        }
    }
}

/// `spec_isqrt` really is the integer square root: its square is at
/// most `n`, and the next square is beyond `n`.
pub proof fn lemma_isqrt_correct(n: int)
    requires
        n >= 0,
    ensures
        spec_isqrt(n) >= 0,
        spec_isqrt(n) * spec_isqrt(n) <= n,
        n < (spec_isqrt(n) + 1) * (spec_isqrt(n) + 1),
    decreases n,
{
    if n > 0 {
        lemma_isqrt_correct(n / 4);
        let q = spec_isqrt(n / 4);
        let r = 2 * q;
        vstd::arithmetic::div_mod::lemma_fundamental_div_mod(n, 4);
        assert(r * r <= 4 * (n / 4)) by (nonlinear_arith)
            requires
                q * q <= n / 4,
                r == 2 * q,
        ;
        assert(n < (r + 2) * (r + 2)) by (nonlinear_arith)
            requires
                n / 4 < (q + 1) * (q + 1),
                r == 2 * q,
                n == 4 * (n / 4) + n % 4,
                n % 4 < 4,
        ;
        if (r + 1) * (r + 1) <= n {
            assert(spec_isqrt(n) == r + 1);
        } else {
            assert(spec_isqrt(n) == r);
        }
    }
}

/// Any non-negative `r` whose square brackets `n` is the integer
/// square root of `n`.
pub proof fn lemma_isqrt_unique(n: int, r: int)
    requires
        n >= 0,
        r >= 0,
        r * r <= n,
        n < (r + 1) * (r + 1),
    ensures
        r == spec_isqrt(n),
{
    lemma_isqrt_correct(n);
    let v = spec_isqrt(n);
    if r < v {
        assert((r + 1) * (r + 1) <= v * v) by (nonlinear_arith)
            requires
                0 <= r,
                r + 1 <= v,
        ;
    } else if v < r {
        assert((v + 1) * (v + 1) <= r * r) by (nonlinear_arith)
            requires
                0 <= v,
                v + 1 <= r,
        ;
    }
}

/// The integer square root: the unique `r` with
/// `r * r <= n < (r + 1) * (r + 1)`.
pub fn isqrt(n: u128) -> (r: u128)
    requires
        n < 0x4000_0000_0000_0000_0000_0000_0000_0000,
    ensures
        r * r <= n,
        n < (r + 1) * (r + 1),
        r == spec_isqrt(n as int),
{
    if n == 0 {
        proof {
            lemma_isqrt_unique(n as int, 0);
        }
        return 0;
    }
    let mut lo: u128 = 0;
    let mut hi: u128 = 0x8000_0000_0000_0000;
    proof {
        assert(hi * hi > n) by (nonlinear_arith)
            requires
                hi == 0x8000_0000_0000_0000u128,
                n < 0x4000_0000_0000_0000_0000_0000_0000_0000,
        ;
    }
    while lo + 1 < hi
        invariant
            lo < hi <= 0x8000_0000_0000_0000,
            lo * lo <= n,
            n < hi * hi,
        decreases hi - lo,
    {
        let mid = lo + (hi - lo) / 2;
        assert(lo < mid < hi);
        assert(mid * mid < 0x1_0000_0000_0000_0000_0000_0000_0000_0000) by (nonlinear_arith)
            requires
                mid < 0x8000_0000_0000_0000u128,
        ;
        if mid * mid <= n {
            lo = mid;
        } else {
            hi = mid;
        }
    }
    proof {
        lemma_isqrt_unique(n as int, lo as int);
    }
    lo
}

/// The sample standard deviation as a mathematical value: the
/// integer square root of the sample variance, and zero for a
/// sequence with one element or none.
pub open spec fn spec_std_dev(s: Seq<i64>) -> int {
    if s.len() <= 1 {
        0
    } else {
        spec_isqrt(spec_variance(s))
    }
}

/// The sample standard deviation of the prices, with an `n - 1`
/// denominator; zero when the sequence has one element or none.  The
/// result is the integer square root of the sample variance.
pub fn std_dev(prices: &Vec<i64>) -> (r: i64)
    requires
        prices@.len() <= MAX_BARS,
        forall|k: int| 0 <= k < prices@.len() ==> price_in_bounds(#[trigger] prices@[k]),
    ensures
        r == spec_std_dev(prices@),
        prices@.len() > 1 ==> r * r <= spec_variance(prices@) < (r + 1) * (r + 1),
        0 <= r <= 0x8_0000_0000_0000,
{
    let len = prices.len();
    if len <= 1 {
        return 0;
    }
    let mean = avg(prices);
    let ghost s = prices@;
    let mut sq_sum: u128 = 0;
    let mut i: usize = 0;
    while i < len
        invariant
            s == prices@,
            len == s.len(),
            1 < s.len() <= MAX_BARS,
            forall|k: int| 0 <= k < s.len() ==> price_in_bounds(#[trigger] s[k]),
            price_in_bounds(mean),
            sq_sum == spec_sq_dev_sum(s.take(i as int), mean as int),
            0 <= i <= s.len(),
            sq_sum <= i * (4 * PRICE_LIMIT * PRICE_LIMIT),
        decreases s.len() - i,
    {
        let d: i128 = mean as i128 - prices[i] as i128;
        proof {
            let t = s.take(i as int + 1);
            assert(t.drop_last() =~= s.take(i as int));
            assert(t.last() == s[i as int]);
            assert(0 <= d * d <= 4 * PRICE_LIMIT * PRICE_LIMIT) by (nonlinear_arith)
                requires
                    -2 * PRICE_LIMIT <= d <= 2 * PRICE_LIMIT,
            ;
            assert((i + 1) * (4 * PRICE_LIMIT * PRICE_LIMIT) == i * (4 * PRICE_LIMIT
                * PRICE_LIMIT) + 4 * PRICE_LIMIT * PRICE_LIMIT) by (nonlinear_arith);
            lemma_mul_inequality(i + 1, MAX_BARS as int, 4 * PRICE_LIMIT * PRICE_LIMIT);
        }
        let dd: u128 = (d * d) as u128;
        sq_sum = sq_sum + dd;
        i = i + 1;
    }
    proof {
        assert(s.take(s.len() as int) =~= s);
        lemma_mul_inequality(
            s.len() as int,
            MAX_BARS as int,
            4 * PRICE_LIMIT * PRICE_LIMIT,
        );
    }
    let variance: u128 = sq_sum / (len as u128 - 1);
    proof {
        vstd::arithmetic::div_mod::lemma_div_nonincreasing(sq_sum as int, (len - 1) as int);
        vstd::arithmetic::div_mod::lemma_div_pos_is_pos(sq_sum as int, (len - 1) as int);
    }
    let r = isqrt(variance);
    proof {
        assert(r <= 0x8_0000_0000_0000) by (nonlinear_arith)
            requires
                r * r <= 0x40_0000_0000_0000_0000_0000_0000int,
                r >= 0,
        ;
    }
    r as i64
}

/// The representative price of a bar: the truncating mean of its four
/// fields.
pub open spec fn spec_median(b: OHLC) -> int {
    div_floor(b.o + b.h + b.l + b.c, 4)
}

/// The representative price of one bar.
pub fn median(b: &OHLC) -> (r: i64)
    requires
        bar_in_bounds(*b),
    ensures
        r == spec_median(*b),
        price_in_bounds(r),
{
    let sum: i128 = b.o as i128 + b.h as i128 + b.l as i128 + b.c as i128;
    proof {
        lemma_div_floor_bounds(sum as int, 4, PRICE_LIMIT as int);
    }
    let r = div_floor_exec(sum, 4);
    r as i64
}

/// The representative price of every bar, in series order.
pub fn median_list(data: &Vec<OHLC>) -> (r: Vec<i64>)
    requires
        forall|k: int| 0 <= k < data@.len() ==> bar_in_bounds(#[trigger] data@[k]),
    ensures
        r@.len() == data@.len(),
        forall|k: int| 0 <= k < data@.len() ==> r@[k] == spec_median(#[trigger] data@[k]),
        forall|k: int| 0 <= k < r@.len() ==> price_in_bounds(#[trigger] r@[k]),
{
    let mut r: Vec<i64> = Vec::new();
    let mut i: usize = 0;
    while i < data.len()
        invariant
            0 <= i <= data@.len(),
            forall|k: int| 0 <= k < data@.len() ==> bar_in_bounds(#[trigger] data@[k]),
            r@.len() == i,
            forall|k: int| 0 <= k < i ==> r@[k] == spec_median(#[trigger] data@[k]),
            forall|k: int| 0 <= k < r@.len() ==> price_in_bounds(#[trigger] r@[k]),
        decreases data@.len() - i,
    {
        let m = median(&data[i]);
        r.push(m);
        i = i + 1;
    }
    r
}

} // verus!
