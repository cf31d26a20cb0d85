//! Summary statistics of timing samples: the mean and the half-width of its
//! confidence interval.
//!
//! Samples are whole milliseconds. A statistic is a fixed-point integer that
//! counts millionths of a millisecond, rounded down.

use crate::confidence::ConfidenceLevel;
use crate::sums::{
    lemma_spread_nonnegative, lemma_sum_bounds, lemma_sums_of_permutation, spread, sum, sum_sq,
};
use vstd::arithmetic::div_mod::*;
use vstd::arithmetic::mul::*;
use vstd::prelude::*;

verus! {

/// How many units of a statistic make one millisecond.
pub const UNITS_PER_MS: u64 = 1_000_000;

/// `c` is the integer part of the square root of `n`.
pub open spec fn is_floor_sqrt(c: nat, n: nat) -> bool {
    c * c <= n < (c + 1) * (c + 1)
}

/// The integer part of the square root of `n`.
pub open spec fn isqrt(n: nat) -> nat {
    choose|c: nat| is_floor_sqrt(c, n)
}

/// Only one number is the integer part of the square root of `n`.
pub proof fn lemma_isqrt(c: nat, n: nat)
    requires
        is_floor_sqrt(c, n),
    ensures
        isqrt(n) == c,
{
    let d = isqrt(n);
    assert(is_floor_sqrt(d, n));
    assert(c == d) by (nonlinear_arith)
        requires
            c * c <= n < (c + 1) * (c + 1),
            d * d <= n < (d + 1) * (d + 1),
    ;
}

/// Computes the integer part of the square root of `n`.
pub fn isqrt_u128(n: u128) -> (c: u64)
    ensures
        c == isqrt(n as nat),
{
    let mut lo: u128 = 0;
    let mut hi: u128 = 0x1_0000_0000_0000_0000;
    while hi - lo > 1
        invariant
            lo < hi <= 0x1_0000_0000_0000_0000,
            lo * lo <= n,
            n < hi * hi,
        decreases hi - lo,
    {
        let mid: u128 = lo + (hi - lo) / 2;
        assert(mid * mid <= 0xffff_ffff_ffff_ffff * 0xffff_ffff_ffff_ffff) by (nonlinear_arith)
            requires
                0 <= mid <= 0xffff_ffff_ffff_ffff,
        ;
        if mid * mid <= n {
            lo = mid;
        } else {
            hi = mid;
        }
    }
    proof {
        lemma_isqrt(lo as nat, n as nat);
    }
    lo as u64
}

/// Computes `(a * b * num) / den` where the product need not fit the
/// machine word but the quotient does.
pub fn scaled_quotient(a: u128, b: u128, num: u128, den: u128) -> (r: u128)
    requires
        a > 0,
        b > 0,
        den > 0,
        a * den <= u128::MAX,
        b * den <= u128::MAX,
        a * b * (num / den + 1) <= u128::MAX,
    ensures
        r == (a * b * num) / (den as int),
{
    let q: u128 = num / den;
    let rem: u128 = num % den;
    proof {
        lemma_fundamental_div_mod(num as int, den as int);
        lemma_mul_inequality(rem as int, den as int, b as int);
        lemma_mul_is_commutative(rem as int, b as int);
        lemma_mul_is_commutative(den as int, b as int);
    }
    let t: u128 = b * rem;
    let q2: u128 = t / den;
    let rem2: u128 = t % den;
    proof {
        lemma_fundamental_div_mod(t as int, den as int);
        lemma_mul_inequality(rem2 as int, den as int, a as int);
        lemma_mul_is_commutative(rem2 as int, a as int);
        lemma_mul_is_commutative(den as int, a as int);
    }
    let u: u128 = a * rem2;
    let q3: u128 = u / den;
    let rem3: u128 = u % den;
    proof {
        lemma_fundamental_div_mod(u as int, den as int);
        // q2 < b and q3 < a, so that the three parts stay below a * b * (q + 1)
        assert(q2 < b) by (nonlinear_arith)
            requires
                b * rem == den * q2 + rem2,
                0 <= rem < den,
                0 <= rem2,
                0 <= q2,
                0 < b,
        ;
        assert(q3 < a) by (nonlinear_arith)
            requires
                a * rem2 == den * q3 + rem3,
                0 <= rem2 < den,
                0 <= rem3,
                0 <= q3,
                0 < a,
        ;
        assert(a * b * q + a * q2 + q3 < a * b * (q + 1)) by (nonlinear_arith)
            requires
                0 <= q2 < b,
                0 <= q3 < a,
                0 <= q,
        ;
        assert(0 <= a * b <= a * b * (q + 1) && 0 <= a * b * q <= a * b * (q + 1) && 0 <= a * q2)
            by (nonlinear_arith)
            requires
                0 <= a,
                0 <= b,
                0 <= q,
                0 <= q2,
        ;
        assert(a * b * num == (a * b * q + a * q2 + q3) * den + rem3) by (nonlinear_arith)
            requires
                num == den * q + rem,
                b * rem == den * q2 + rem2,
                a * rem2 == den * q3 + rem3,
        ;
        lemma_fundamental_div_mod_converse(
            a * b * num,
            den as int,
            a * b * q + a * q2 + q3,
            rem3 as int,
        );
    }
    a * b * q + a * q2 + q3
}

/// The mean of the samples, in millionths of a millisecond, rounded down.
pub open spec fn spec_mean(s: Seq<u32>) -> int
    recommends
        s.len() > 0,
{
    (UNITS_PER_MS * sum(s)) / (s.len() as int)
}

/// The square of the half-width of the confidence interval, rounded down:
/// the squared critical value times the sample variance over the number of
/// samples, where the variance divides by one less than that number.
///
/// The critical value counts thousandths, so the half-width in millionths of
/// a millisecond is a thousand times `z * sqrt(variance / n)`; its square is
/// a million times `z * z * spread / (n * n * (n - 1))`.
pub open spec fn spec_ci_squared(s: Seq<u32>, level: ConfidenceLevel) -> int
    recommends
        s.len() > 1,
{
    let n = s.len() as int;
    (UNITS_PER_MS * (level.spec_zval() * level.spec_zval()) * spread(s)) / (n * n * (n - 1))
}

/// The half-width of the confidence interval around the mean, in millionths
/// of a millisecond, rounded down. A single sample has the half-width zero.
pub open spec fn spec_ci(s: Seq<u32>, level: ConfidenceLevel) -> nat {
    if s.len() <= 1 {
        0
    } else {
        isqrt(spec_ci_squared(s, level) as nat)
    }
}

/// The mean of a list of samples and the half-width of the confidence
/// interval around it, both in millionths of a millisecond.
#[derive(Copy, Clone, Debug, PartialEq, Eq, Structural)]
pub struct SummaryStats {
    /// Sample arithmetic mean.
    pub mean: i64,
    /// The half-width of the confidence interval: the mean is reported give or take this value.
    pub ci: u64,
}

impl SummaryStats {
    pub fn new(mean: i64, ci: u64) -> (stats: Self)
        ensures
            stats.mean == mean,
            stats.ci == ci,
    {
        SummaryStats { mean, ci }
    }

    /// The lower end of the interval.
    pub open spec fn lower(&self) -> int {
        self.mean - self.ci
    }

    /// The upper end of the interval.
    pub open spec fn upper(&self) -> int {
        self.mean + self.ci
    }

    /// Two intervals overlap when neither lies wholly below the other.
    pub open spec fn spec_ci_overlaps(&self, other: &Self) -> bool {
        self.lower() <= other.upper() && other.lower() <= self.upper()
    }

    /// Determine if two confidence intervals overlap.
    pub fn ci_overlaps(&self, other: &Self) -> (overlaps: bool)
        ensures
            overlaps == self.spec_ci_overlaps(other),
    {
        let l1: i128 = self.mean as i128 - self.ci as i128;
        let u1: i128 = self.mean as i128 + self.ci as i128;
        let l2: i128 = other.mean as i128 - other.ci as i128;
        let u2: i128 = other.mean as i128 + other.ci as i128;
        l1 <= u2 && l2 <= u1
    }
}

/// With two samples or more, the spread over `n * n * (n - 1)` stays below
/// the square of the largest sample value.
proof fn lemma_spread_quotient(s: Seq<u32>)
    requires
        2 <= s.len() <= u32::MAX,
    ensures
        0 <= sum(s) * sum(s) <= s.len() * sum_sq(s),
        s.len() * sum_sq(s) <= 0xffff_ffff * 0xffff_ffff * 0xffff_fffe_0000_0001,
        0 < s.len() * s.len() <= 0xffff_ffff * 0xffff_ffff,
        0 < s.len() * s.len() * (s.len() - 1) <= 0xffff_ffff * 0xffff_ffff * 0xffff_fffe,
        spread(s) / (s.len() * s.len() * (s.len() - 1)) <= 0xffff_fffe_0000_0001,
{
    let n = s.len() as int;
    let m2: int = 0xffff_fffe_0000_0001;
    let q = sum_sq(s) as int;
    let p = sum(s) as int;
    lemma_sum_bounds(s);
    lemma_spread_nonnegative(s);
    let nn = n * n;
    assert(4 <= nn <= 0xffff_ffff * 0xffff_ffff) by (nonlinear_arith)
        requires
            nn == n * n,
            2 <= n <= 0xffff_ffff,
    ;
    let den = nn * (n - 1);
    assert(nn <= den <= 0xffff_ffff * 0xffff_ffff * 0xffff_fffe) by (nonlinear_arith)
        requires
            den == nn * (n - 1),
            4 <= nn <= 0xffff_ffff * 0xffff_ffff,
            2 <= n <= 0xffff_ffff,
    ;
    assert(n * q <= nn * m2) by (nonlinear_arith)
        requires
            0 <= q <= n * m2,
            nn == n * n,
            n >= 0,
    ;
    assert(p * p >= 0) by (nonlinear_arith);
    assert(nn * m2 <= 0xffff_ffff * 0xffff_ffff * 0xffff_fffe_0000_0001) by (nonlinear_arith)
        requires
            0 <= nn <= 0xffff_ffff * 0xffff_ffff,
            m2 == 0xffff_fffe_0000_0001,
    ;
    let sp = spread(s);
    assert(sp <= nn * m2);
    lemma_div_is_ordered_by_denominator(sp, nn, den);
    lemma_div_is_ordered(sp, nn * m2, nn);
    lemma_div_by_multiple(m2, nn);
    lemma_mul_is_commutative(m2, nn);
}

/// The mean lies between zero and the largest sample value.
pub proof fn lemma_mean_bounds(s: Seq<u32>)
    requires
        s.len() > 0,
    ensures
        0 <= spec_mean(s) <= 4_294_967_295_000_000,
{
    let n = s.len() as int;
    let top: int = 4_294_967_295_000_000;
    let scaled: int = (1_000_000 * sum(s)) as int;
    lemma_sum_bounds(s);
    lemma_div_is_ordered(scaled, n * top, n);
    lemma_div_by_multiple(top, n);
    lemma_mul_is_commutative(n, top);
    lemma_div_pos_is_pos(scaled, n);
}

/// Summarises one list of samples: their mean, and the half-width of the
/// confidence interval around it at the given level.
pub fn summarise_samples(samples: &Vec<u32>, level: ConfidenceLevel) -> (stats: SummaryStats)
    requires
        0 < samples.len() <= u32::MAX,
    ensures
        stats.mean == spec_mean(samples@),
        stats.ci == spec_ci(samples@, level),
        samples.len() == 1 ==> stats.ci == 0,
        stats.mean >= 0,
{
    let n: usize = samples.len();
    let mut total: u64 = 0;
    let mut squares: u128 = 0;
    let mut i: usize = 0;
    while i < n
        invariant
            i <= n,
            n == samples.len(),
            n <= u32::MAX,
            total == sum(samples@.take(i as int)),
            squares == sum_sq(samples@.take(i as int)),
        decreases n - i,
    {
        let x: u32 = samples[i];
        proof {
            lemma_sum_bounds(samples@.take(i as int));
            lemma_sum_bounds(samples@.take(i + 1));
            assert(samples@.take(i + 1).drop_last() =~= samples@.take(i as int));
            assert((x as int) * (x as int) <= 0xffff_fffe_0000_0001) by (nonlinear_arith)
                requires
                    0 <= x <= 0xffff_ffff,
            ;
        }
        total = total + x as u64;
        squares = squares + (x as u128) * (x as u128);
        i += 1;
    }
    proof {
        assert(samples@.take(n as int) =~= samples@);
        lemma_sum_bounds(samples@);
    }
    let count: u128 = n as u128;
    let scaled: u128 = UNITS_PER_MS as u128 * total as u128;
    let mean: u128 = scaled / count;
    proof {
        assert(scaled == 1_000_000 * total);
        lemma_mean_bounds(samples@);
    }
    let ci: u64 = if n > 1 {
        proof {
            lemma_spread_quotient(samples@);
        }
        let whole: u128 = count * squares;
        let square: u128 = (total as u128) * (total as u128);
        let num: u128 = whole - square;
        let den: u128 = count * count * (count - 1);
        let z: u128 = level.zval() as u128;
        assert(0 < z * z <= 6635776) by (nonlinear_arith)
            requires
                0 < z <= 2576,
        ;
        let zz: u128 = z * z;
        proof {
            let q = num as int / den as int;
            assert(UNITS_PER_MS * den <= u128::MAX);
            assert(zz * den <= u128::MAX) by (nonlinear_arith)
                requires
                    0 < zz <= 6635776,
                    0 < den <= 0xffff_ffff * 0xffff_ffff * 0xffff_fffe,
            ;
            assert(UNITS_PER_MS * zz * (q + 1) <= u128::MAX) by (nonlinear_arith)
                requires
                    0 < zz <= 6635776,
                    0 <= q <= 0xffff_fffe_0000_0001,
            ;
        }
        let squared: u128 = scaled_quotient(UNITS_PER_MS as u128, zz, num, den);
        isqrt_u128(squared)
    } else {
        0
    };
    SummaryStats { mean: mean as i64, ci }
}

/// A single sample has an interval of no width.
pub proof fn lemma_single_sample(s: Seq<u32>, level: ConfidenceLevel)
    requires
        s.len() == 1,
    ensures
        spec_ci(s, level) == 0,
        spec_mean(s) == UNITS_PER_MS * s[0],
{
    assert(s.drop_last() =~= Seq::<u32>::empty());
    assert(sum(s.drop_last()) == 0);
    assert(sum(s) == s[0]);
}

/// The mean is the sum of the samples over their number, rounded down to a
/// whole unit.
pub proof fn lemma_mean_is_average(s: Seq<u32>)
    requires
        s.len() > 0,
    ensures
        spec_mean(s) * s.len() <= UNITS_PER_MS * sum(s) < (spec_mean(s) + 1) * s.len(),
{
    let n = s.len() as int;
    let x: int = (UNITS_PER_MS * sum(s)) as int;
    lemma_fundamental_div_mod(x, n);
    lemma_mul_is_commutative(n, x / n);
    lemma_mul_is_distributive_add_other_way(n, x / n, 1);
}

/// The statistics of two sample lists that hold the same samples, in
/// whatever order, are the same.
pub proof fn lemma_stats_of_permutation(a: Seq<u32>, b: Seq<u32>, level: ConfidenceLevel)
    requires
        a.to_multiset() == b.to_multiset(),
    ensures
        spec_mean(a) == spec_mean(b),
        spec_ci(a, level) == spec_ci(b, level),
{
    lemma_sums_of_permutation(a, b);
}

/// The overlap of two intervals does not depend on which of them is asked.
pub proof fn lemma_ci_overlaps_symmetric(a: SummaryStats, b: SummaryStats)
    ensures
        a.spec_ci_overlaps(&b) == b.spec_ci_overlaps(&a),
{
}

/// Every interval overlaps itself.
pub proof fn lemma_ci_overlaps_reflexive(a: SummaryStats)
    ensures
        a.spec_ci_overlaps(&a),
{
}

} // verus!
