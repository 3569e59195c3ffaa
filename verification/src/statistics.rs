//! Summary statistics of a sequence of samples.
//!
//! Samples are natural numbers below 2^32 (latencies in microseconds). Every
//! statistic is defined over the mathematical sequence and rounded down to a
//! whole number of the samples' unit.

use vstd::arithmetic::div_mod::lemma_fundamental_div_mod_converse;
use vstd::prelude::*;
use vstd::relations::sorted_by;
use vstd::seq_lib::{
    lemma_sorted_unique, to_multiset_build, to_multiset_contains, to_multiset_insert,
    to_multiset_len, to_multiset_remove,
};

verus! {

/// Largest value a sample can take.
pub const MAX_SAMPLE: u32 = 0xffff_ffff;

/// The statistics of one sequence of samples.
///
/// Of an empty sequence `count` is 0 and every other field is 0 as well: a
/// reader tells "no samples" from "samples of value zero" by `count`.
#[derive(Clone, Copy, Debug, PartialEq, Eq)]
pub struct Statistics {
    /// Number of samples.
    pub count: usize,
    /// Arithmetic mean.
    pub mean: u32,
    /// Middle value of the samples in ascending order; with an even count the
    /// mean of the two middle values.
    pub median: u32,
    /// Smallest sample.
    pub min: u32,
    /// Largest sample.
    pub max: u32,
    /// Population standard deviation.
    pub std_dev: u32,
    /// Mean absolute difference between one sample and the next.
    pub jitter: u32,
}

/// Sum of the samples.
pub open spec fn sum_of(s: Seq<u32>) -> int
    decreases s.len(),
{
    if s.len() == 0 {
        0
    } else {
        sum_of(s.drop_last()) + s.last()
    }
}

/// Sum of the squares of the samples.
pub open spec fn sum_of_squares(s: Seq<u32>) -> int
    decreases s.len(),
{
    if s.len() == 0 {
        0
    } else {
        sum_of_squares(s.drop_last()) + s.last() * s.last()
    }
}

/// Distance between two numbers.
pub open spec fn distance(a: int, b: int) -> int {
    if a <= b {
        b - a
    } else {
        a - b
    }
}

/// Sum of the distances between each sample and the one after it.
pub open spec fn total_variation(s: Seq<u32>) -> int
    decreases s.len(),
{
    if s.len() < 2 {
        0
    } else {
        total_variation(s.drop_last()) + distance(s[s.len() - 2] as int, s.last() as int)
    }
}

/// `m` is the smallest sample of `s`.
pub open spec fn is_min_of(m: int, s: Seq<u32>) -> bool {
    &&& exists|i: int| 0 <= i < s.len() && s[i] == m
    &&& forall|i: int| 0 <= i < s.len() ==> m <= s[i]
}

/// `m` is the largest sample of `s`.
pub open spec fn is_max_of(m: int, s: Seq<u32>) -> bool {
    &&& exists|i: int| 0 <= i < s.len() && s[i] == m
    &&& forall|i: int| 0 <= i < s.len() ==> s[i] <= m
}

/// The smallest sample of a sequence that is not empty.
pub open spec fn min_of(s: Seq<u32>) -> int {
    choose|m: int| is_min_of(m, s)
}

/// The largest sample of a sequence that is not empty.
pub open spec fn max_of(s: Seq<u32>) -> int {
    choose|m: int| is_max_of(m, s)
}

/// The arithmetic mean, rounded down.
pub open spec fn mean_of(s: Seq<u32>) -> int {
    sum_of(s) / (s.len() as int)
}

/// The order in which samples are arranged for the median.
pub open spec fn ascending() -> spec_fn(u32, u32) -> bool {
    |a: u32, b: u32| a <= b
}

/// The median: the middle sample in ascending order, or with an even count
/// the mean of the two middle samples, rounded down.
pub open spec fn median_of(s: Seq<u32>) -> int {
    let ordered = s.sort_by(ascending());
    let half = (s.len() / 2) as int;
    if s.len() % 2 == 1 {
        ordered[half] as int
    } else {
        (ordered[half - 1] + ordered[half]) / 2
    }
}

/// The population variance `sum((x - mean)^2) / n` with the exact mean,
/// rounded down. It is written without fractions as
/// `(n * sum(x^2) - sum(x)^2) / n^2`.
pub open spec fn variance_of(s: Seq<u32>) -> int {
    let n = s.len() as int;
    (n * sum_of_squares(s) - sum_of(s) * sum_of(s)) / (n * n)
}

/// `r` is the square root of `x`, rounded down.
pub open spec fn is_floor_sqrt(r: int, x: int) -> bool {
    0 <= r && r * r <= x < (r + 1) * (r + 1)
}

/// The square root of a natural number, rounded down.
pub open spec fn floor_sqrt(x: int) -> int {
    choose|r: int| is_floor_sqrt(r, x)
}

/// The population standard deviation, rounded down.
pub open spec fn std_dev_of(s: Seq<u32>) -> int {
    floor_sqrt(variance_of(s))
}

/// The jitter: the mean distance between consecutive samples, rounded down;
/// zero where there are fewer than two samples.
pub open spec fn jitter_of(s: Seq<u32>) -> int {
    if s.len() < 2 {
        0
    } else {
        total_variation(s) / (s.len() - 1)
    }
}

/// The statistics of a sequence of samples.
pub open spec fn statistics_of(s: Seq<u32>) -> Statistics {
    if s.len() == 0 {
        Statistics { count: 0, mean: 0, median: 0, min: 0, max: 0, std_dev: 0, jitter: 0 }
    } else {
        Statistics {
            count: s.len() as usize,
            mean: mean_of(s) as u32,
            median: median_of(s) as u32,
            min: min_of(s) as u32,
            max: max_of(s) as u32,
            std_dev: std_dev_of(s) as u32,
            jitter: jitter_of(s) as u32,
        }
    }
}

/// A number has at most one rounded-down square root.
pub proof fn lemma_floor_sqrt_unique(r1: int, r2: int, x: int)
    requires
        is_floor_sqrt(r1, x),
        is_floor_sqrt(r2, x),
    ensures
        r1 == r2,
{
    assert(r1 < r2 + 1) by (nonlinear_arith)
        requires
            0 <= r1,
            0 <= r2,
            r1 * r1 < (r2 + 1) * (r2 + 1),
    ;
    assert(r2 < r1 + 1) by (nonlinear_arith)
        requires
            0 <= r1,
            0 <= r2,
            r2 * r2 < (r1 + 1) * (r1 + 1),
    ;
}

/// Computes the square root of a number, rounded down.
pub fn integer_sqrt(x: u64) -> (root: u32)
    ensures
        is_floor_sqrt(root as int, x as int),
        root == floor_sqrt(x as int),
{
    let mut low: u64 = 0;
    let mut high: u64 = 0x1_0000_0000;
    assert(high * high > x) by (nonlinear_arith)
        requires
            high == 0x1_0000_0000,
            x <= u64::MAX,
    ;
    while high - low > 1
        invariant
            low < high <= 0x1_0000_0000,
            low * low <= x < high * high,
        decreases high - low,
    {
        let mid: u64 = low + (high - low) / 2;
        assert(mid * mid <= u64::MAX) by (nonlinear_arith)
            requires
                mid < 0x1_0000_0000,
        ;
        if mid * mid <= x {
            low = mid;
        } else {
            high = mid;
        }
    }
    proof {
        let r = floor_sqrt(x as int);
        assert(is_floor_sqrt(low as int, x as int));
        lemma_floor_sqrt_unique(low as int, r, x as int);
    }
    low as u32
}

/// The sum of samples that all lie between `low` and `high` lies between
/// `n * low` and `n * high`, and the sum of their squares stays below
/// `n * high^2`.
pub proof fn lemma_sums_within(s: Seq<u32>, low: int, high: int)
    requires
        0 <= low,
        forall|i: int| 0 <= i < s.len() ==> low <= #[trigger] s[i] <= high,
    ensures
        s.len() * low <= sum_of(s) <= s.len() * high,
        0 <= sum_of_squares(s) <= s.len() * (high * high),
    decreases s.len(),
{
    if s.len() > 0 {
        let rest = s.drop_last();
        let x = s.last() as int;
        let m = rest.len() as int;
        lemma_sums_within(rest, low, high);
        assert(s[s.len() - 1] == x);
        assert((m + 1) * low == m * low + low && (m + 1) * high == m * high + high && (m + 1) * (
        high * high) == m * (high * high) + high * high && 0 <= x * x <= high * high)
            by (nonlinear_arith)
            requires
                0 <= low <= x <= high,
        ;
    }
}

/// The squared distances of the samples from any number `y` add up to
/// `sum(x^2) - 2 * y * sum(x) + n * y^2`, which is therefore not negative.
pub proof fn lemma_spread_not_negative(s: Seq<u32>, y: int)
    ensures
        sum_of_squares(s) - 2 * y * sum_of(s) + s.len() * (y * y) >= 0,
    decreases s.len(),
{
    if s.len() > 0 {
        let rest = s.drop_last();
        let x = s.last() as int;
        let m = rest.len() as int;
        let a = sum_of_squares(rest);
        let b = sum_of(rest);
        lemma_spread_not_negative(rest, y);
        assert((a + x * x) - 2 * y * (b + x) + (m + 1) * (y * y) >= 0) by (nonlinear_arith)
            requires
                a - 2 * y * b + m * (y * y) >= 0,
        {
            assert((a + x * x) - 2 * y * (b + x) + (m + 1) * (y * y) == (a - 2 * y * b + m * (y
                * y)) + (x - y) * (x - y));
            assert((x - y) * (x - y) >= 0);
        }
    }
}

/// `n * sum(x^2) >= sum(x)^2`: the variance is never negative.
pub proof fn lemma_variance_not_negative(s: Seq<u32>)
    ensures
        s.len() * sum_of_squares(s) - sum_of(s) * sum_of(s) >= 0,
    decreases s.len(),
{
    if s.len() > 0 {
        let rest = s.drop_last();
        let x = s.last() as int;
        let m = rest.len() as int;
        let a = sum_of_squares(rest);
        let b = sum_of(rest);
        lemma_variance_not_negative(rest);
        lemma_spread_not_negative(rest, x);
        assert((m + 1) * (a + x * x) - (b + x) * (b + x) >= 0) by (nonlinear_arith)
            requires
                m * a - b * b >= 0,
                a - 2 * x * b + m * (x * x) >= 0,
        {
            assert((m + 1) * (a + x * x) - (b + x) * (b + x) == (m * a - b * b) + (a - 2 * x * b
                + m * (x * x)));
        }
    } else {
        assert(sum_of(s) * sum_of(s) == 0) by (nonlinear_arith)
            requires
                sum_of(s) == 0,
        ;
    }
}

/// Computes `(count * squares - sum^2) / count^2`, rounded down, for sums of
/// up to 2^64 - 1 samples without leaving 128 bits.
///
/// With `sum = q * count + r` the numerator is `count * a - r^2` for
/// `a = squares - q^2 * count - 2 * q * r`, and none of these parts exceeds
/// `squares`.
fn variance_from_sums(count: u128, sum: u128, squares: u128) -> (variance: u64)
    requires
        1 <= count <= u64::MAX,
        sum <= count * MAX_SAMPLE,
        squares <= count * (MAX_SAMPLE * MAX_SAMPLE),
        sum * sum <= count * squares,
    ensures
        variance == (count * squares - sum * sum) / (count * count),
        variance <= MAX_SAMPLE * MAX_SAMPLE,
{
    let q: u128 = sum / count;
    let r: u128 = sum % count;
    proof {
        assert(q <= MAX_SAMPLE && sum == q * count + r) by (nonlinear_arith)
            requires
                q == sum / count,
                r == sum % count,
                count >= 1,
                sum <= count * MAX_SAMPLE,
        ;
        assert(q * q <= 0xffff_fffe_0000_0001 && q * q * count <= 0xffff_fffe_0000_0001
            * 0xffff_ffff_ffff_ffff && 2 * q * r <= 2 * 0xffff_ffff * 0xffff_ffff_ffff_ffff)
            by (nonlinear_arith)
            requires
                q <= 0xffff_ffff,
                r < count,
                count <= 0xffff_ffff_ffff_ffff,
        ;
        assert(count * (squares - q * q * count - 2 * q * r) == (count * squares - sum * sum) + r
            * r) by (nonlinear_arith)
            requires
                sum == q * count + r,
        ;
        assert(squares - q * q * count - 2 * q * r >= 0) by (nonlinear_arith)
            requires
                count * (squares - q * q * count - 2 * q * r) == (count * squares - sum * sum)
                    + r * r,
                count * squares - sum * sum >= 0,
                count >= 1,
        ;
    }
    let a: u128 = squares - q * q * count - 2 * q * r;
    let whole: u128 = a / count;
    let part: u128 = a % count;
    proof {
        assert(part * count <= 0xffff_ffff_ffff_ffff * 0xffff_ffff_ffff_ffff && r * r
            <= 0xffff_ffff_ffff_ffff * 0xffff_ffff_ffff_ffff && part * count < count * count && r
            * r < count * count && count * count >= 1) by (nonlinear_arith)
            requires
                part < count,
                r < count,
                1 <= count <= 0xffff_ffff_ffff_ffff,
        ;
        assert(a == whole * count + part && whole <= a) by (nonlinear_arith)
            requires
                whole == a / count,
                part == a % count,
                count >= 1,
        ;
        assert(count * squares - sum * sum == whole * (count * count) + (part * count - r * r))
            by (nonlinear_arith)
            requires
                count * a == (count * squares - sum * sum) + r * r,
                a == whole * count + part,
        ;
        assert(whole <= MAX_SAMPLE * MAX_SAMPLE) by (nonlinear_arith)
            requires
                whole == a / count,
                a <= squares,
                squares <= count * (MAX_SAMPLE * MAX_SAMPLE),
                count >= 1,
        ;
    }
    if part * count >= r * r {
        proof {
            lemma_fundamental_div_mod_converse(
                count * squares - sum * sum,
                (count * count) as int,
                whole as int,
                part * count - r * r,
            );
        }
        whole as u64
    } else {
        proof {
            assert(whole >= 1) by (nonlinear_arith)
                requires
                    whole * (count * count) + (part * count - r * r) >= 0,
                    part * count - r * r < 0,
                    whole >= 0,
            ;
            assert(whole * (count * count) + (part * count - r * r) == (whole - 1) * (count
                * count) + (count * count + part * count - r * r)) by (nonlinear_arith);
            lemma_fundamental_div_mod_converse(
                count * squares - sum * sum,
                (count * count) as int,
                whole - 1,
                count * count + part * count - r * r,
            );
        }
        (whole - 1) as u64
    }
}

/// A sequence has at most one smallest and at most one largest sample.
pub proof fn lemma_extremes_unique(s: Seq<u32>, min: int, max: int)
    requires
        is_min_of(min, s),
        is_max_of(max, s),
    ensures
        min_of(s) == min,
        max_of(s) == max,
        0 <= min <= max <= MAX_SAMPLE,
{
    let m = min_of(s);
    assert(is_min_of(m, s));
    let n = max_of(s);
    assert(is_max_of(n, s));
}

/// Arranges the samples in ascending order, leaving the input as it is.
fn sorted_copy(samples: &Vec<u32>) -> (ordered: Vec<u32>)
    ensures
        ordered@ == samples@.sort_by(ascending()),
        ordered@.len() == samples@.len(),
{
    let mut ordered: Vec<u32> = Vec::new();
    let mut i: usize = 0;
    assert(ordered@ =~= samples@.take(0));
    while i < samples.len()
        invariant
            i <= samples.len(),
            ordered@.len() == i,
            sorted_by(ordered@, ascending()),
            ordered@.to_multiset() == samples@.take(i as int).to_multiset(),
        decreases samples.len() - i,
    {
        let x: u32 = samples[i];
        let mut at: usize = 0;
        while at < ordered.len() && ordered[at] <= x
            invariant
                at <= ordered.len(),
                forall|k: int| 0 <= k < at ==> #[trigger] ordered@[k] <= x,
            decreases ordered.len() - at,
        {
            at += 1;
        }
        let ghost before = ordered@;
        ordered.insert(at, x);
        proof {
            to_multiset_insert(before, at as int, x);
            to_multiset_build(samples@.take(i as int), x);
            assert(samples@.take(i + 1) =~= samples@.take(i as int).push(x));
            assert forall|a: int, b: int| 0 <= a < b < ordered@.len() implies ordered@[a]
                <= ordered@[b] by {
                if b < at {
                    assert(ascending()(before[a], before[b]));
                } else if b == at {
                } else if a < at {
                    assert(ascending()(before[a], before[b - 1]));
                } else if a == at {
                    assert(before[at as int] > x);
                    if b - 1 > at {
                        assert(ascending()(before[at as int], before[b - 1]));
                    }
                } else {
                    assert(ascending()(before[a - 1], before[b - 1]));
                }
            }
        }
        i += 1;
    }
    proof {
        assert(samples@.take(i as int) =~= samples@);
        samples@.lemma_sort_by_ensures(ascending());
        lemma_sorted_unique(ordered@, samples@.sort_by(ascending()), ascending());
    }
    ordered
}

/// Reduces a sequence of samples to its statistics. The samples are read in
/// the order given, which matters for the jitter alone, and are not changed.
///
/// An empty sequence gives a count of 0 with every other field 0.
pub fn calculate_statistics(samples: &Vec<u32>) -> (stats: Statistics)
    ensures
        stats == statistics_of(samples@),
        stats.count == samples@.len(),
        samples@.len() > 0 ==> {
            &&& stats.mean == mean_of(samples@)
            &&& stats.median == median_of(samples@)
            &&& stats.min == min_of(samples@)
            &&& stats.max == max_of(samples@)
            &&& stats.std_dev == std_dev_of(samples@)
            &&& stats.jitter == jitter_of(samples@)
            &&& stats.min <= stats.mean <= stats.max
            &&& stats.min <= stats.median <= stats.max
        },
{
    let n: usize = samples.len();
    if n == 0 {
        return Statistics { count: 0, mean: 0, median: 0, min: 0, max: 0, std_dev: 0, jitter: 0 };
    }
    let mut sum: u128 = 0;
    let mut squares: u128 = 0;
    let mut variation: u128 = 0;
    let mut min: u32 = samples[0];
    let mut max: u32 = samples[0];
    let ghost mut min_at: int = 0;
    let ghost mut max_at: int = 0;
    let mut i: usize = 0;
    while i < n
        invariant
            i <= n,
            n == samples@.len(),
            n > 0,
            sum == sum_of(samples@.take(i as int)),
            squares == sum_of_squares(samples@.take(i as int)),
            variation == total_variation(samples@.take(i as int)),
            0 <= min_at < n && samples@[min_at] == min,
            0 <= max_at < n && samples@[max_at] == max,
            forall|k: int| 0 <= k < i ==> min <= #[trigger] samples@[k] <= max,
            i > 0 ==> variation <= (i - 1) * MAX_SAMPLE,
            i == 0 ==> variation == 0,
        decreases n - i,
    {
        let x: u32 = samples[i];
        let ghost seen = samples@.take(i as int);
        let ghost next = samples@.take(i + 1);
        proof {
            lemma_sums_within(seen, 0, MAX_SAMPLE as int);
            assert(next.drop_last() =~= seen);
            assert(next.last() == x);
            assert(i * MAX_SAMPLE <= 0xffff_ffff_ffff_ffff * 0xffff_ffff && i * (MAX_SAMPLE
                * MAX_SAMPLE) <= 0xffff_ffff_ffff_ffff * 0xffff_fffe_0000_0001 && x * x
                <= 0xffff_fffe_0000_0001) by (nonlinear_arith)
                requires
                    i <= 0xffff_ffff_ffff_ffff,
                    x <= 0xffff_ffff,
            ;
        }
        sum = sum + x as u128;
        squares = squares + (x as u128) * (x as u128);
        if i > 0 {
            let previous: u32 = samples[i - 1];
            assert(next[next.len() - 2] == previous);
            let step: u32 = if previous <= x {
                x - previous
            } else {
                previous - x
            };
            variation = variation + step as u128;
        }
        if x < min {
            min = x;
            proof {
                min_at = i as int;
            }
        }
        if x > max {
            max = x;
            proof {
                max_at = i as int;
            }
        }
        i += 1;
    }
    let count: u128 = n as u128;
    proof {
        assert(samples@.take(n as int) =~= samples@);
        assert(is_min_of(min as int, samples@));
        assert(is_max_of(max as int, samples@));
        lemma_extremes_unique(samples@, min as int, max as int);
        lemma_sums_within(samples@, min as int, max as int);
        lemma_sums_within(samples@, 0, MAX_SAMPLE as int);
        lemma_variance_not_negative(samples@);
        assert(min <= sum / count <= max) by (nonlinear_arith)
            requires
                count * min <= sum <= count * max,
                count >= 1,
        ;
    }
    let mean: u32 = (sum / count) as u32;
    let std_dev: u32 = integer_sqrt(variance_from_sums(count, sum, squares));
    let jitter: u32 = if n < 2 {
        0
    } else {
        let gaps: u128 = count - 1;
        assert(variation / gaps <= MAX_SAMPLE) by (nonlinear_arith)
            requires
                variation <= gaps * MAX_SAMPLE,
                gaps >= 1,
        ;
        (variation / gaps) as u32
    };
    let ordered = sorted_copy(samples);
    proof {
        samples@.lemma_sort_by_ensures(ascending());
        let arranged = samples@.sort_by(ascending());
        assert forall|k: int| 0 <= k < arranged.len() implies min <= #[trigger] arranged[k]
            <= max by {
            assert(arranged.contains(arranged[k]));
            lemma_rearranged_sample(arranged, samples@, arranged[k]);
        }
    }
    let half: usize = n / 2;
    let median: u32 = if n % 2 == 1 {
        ordered[half]
    } else {
        ((ordered[half - 1] as u64 + ordered[half] as u64) / 2) as u32
    };
    Statistics { count: n, mean, median, min, max, std_dev, jitter }
}

/// The same samples in the same order have the same statistics: the
/// statistics depend on nothing but the sequence.
pub proof fn lemma_statistics_repeatable(first: Seq<u32>, second: Seq<u32>)
    requires
        first.len() == second.len(),
        forall|i: int| 0 <= i < first.len() ==> first[i] == second[i],
    ensures
        statistics_of(first) == statistics_of(second),
{
    assert(first =~= second);
}

/// Every field of the statistics is the statistic it is named after: none
/// is cut short by the width of its field.
pub proof fn lemma_statistics_fit(s: Seq<u32>)
    requires
        0 < s.len() <= usize::MAX,
    ensures
        statistics_of(s).count == s.len(),
        statistics_of(s).mean == mean_of(s),
        statistics_of(s).median == median_of(s),
        statistics_of(s).min == min_of(s),
        statistics_of(s).max == max_of(s),
        statistics_of(s).std_dev == std_dev_of(s),
        statistics_of(s).jitter == jitter_of(s),
        min_of(s) <= mean_of(s) <= max_of(s),
        min_of(s) <= median_of(s) <= max_of(s),
        is_min_of(min_of(s), s),
        is_max_of(max_of(s), s),
        is_floor_sqrt(std_dev_of(s), variance_of(s)),
        0 <= jitter_of(s) <= max_of(s) - min_of(s),
        0 <= std_dev_of(s) <= max_of(s) - min_of(s),
{
    lemma_extremes_exist(s);
    let min = min_of(s);
    let max = max_of(s);
    lemma_extremes_unique(s, min, max);
    let n = s.len() as int;
    // The mean lies between the extremes.
    lemma_sums_within(s, min, max);
    assert(min <= sum_of(s) / n <= max) by (nonlinear_arith)
        requires
            n * min <= sum_of(s) <= n * max,
            n >= 1,
    ;
    // So does the median.
    let ordered = s.sort_by(ascending());
    s.lemma_sort_by_ensures(ascending());
    lemma_rearranged(ordered, s);
    assert forall|k: int| 0 <= k < ordered.len() implies min <= #[trigger] ordered[k] <= max by {
        assert(ordered.contains(ordered[k]));
        lemma_rearranged_sample(ordered, s, ordered[k]);
    }
    // The variance is at most the square of the range.
    lemma_variance_within_range(s, min, max);
    let v = variance_of(s);
    let width = max - min;
    lemma_floor_sqrt_exists(v);
    let root = floor_sqrt(v);
    assert(root <= width) by (nonlinear_arith)
        requires
            0 <= root,
            root * root <= v,
            v <= width * width,
            0 <= width,
    ;
    // The jitter is at most the range.
    if n >= 2 {
        lemma_variation_within_range(s, min, max);
        assert(0 <= total_variation(s) / (n - 1) <= width) by (nonlinear_arith)
            requires
                0 <= total_variation(s) <= (n - 1) * width,
                n >= 2,
        ;
    }
}

/// A sequence that is not empty has a smallest and a largest sample.
pub proof fn lemma_extremes_exist(s: Seq<u32>)
    requires
        s.len() > 0,
    ensures
        is_min_of(min_of(s), s),
        is_max_of(max_of(s), s),
    decreases s.len(),
{
    if s.len() == 1 {
        assert(is_min_of(s[0] as int, s));
        assert(is_max_of(s[0] as int, s));
    } else {
        let rest = s.drop_last();
        lemma_extremes_exist(rest);
        let low = min_of(rest);
        let high = max_of(rest);
        let x = s.last() as int;
        let at_low = choose|i: int| 0 <= i < rest.len() && rest[i] == low;
        let at_high = choose|i: int| 0 <= i < rest.len() && rest[i] == high;
        assert(s[at_low] == low && s[at_high] == high);
        assert forall|i: int| 0 <= i < s.len() implies low <= #[trigger] s[i] || x <= s[i] by {
            if i < rest.len() {
                assert(rest[i] == s[i]);
            }
        }
        assert forall|i: int| 0 <= i < s.len() implies #[trigger] s[i] <= high || s[i] <= x by {
            if i < rest.len() {
                assert(rest[i] == s[i]);
            }
        }
        if x < low {
            assert(is_min_of(x, s));
        } else {
            assert(is_min_of(low, s));
        }
        if x > high {
            assert(is_max_of(x, s));
        } else {
            assert(is_max_of(high, s));
        }
    }
}

/// Every natural number has a rounded-down square root.
pub proof fn lemma_floor_sqrt_exists(x: int)
    requires
        0 <= x,
    ensures
        is_floor_sqrt(floor_sqrt(x), x),
    decreases x,
{
    if x == 0 {
        assert(is_floor_sqrt(0, 0));
    } else {
        lemma_floor_sqrt_exists(x - 1);
        let r = floor_sqrt(x - 1);
        if (r + 1) * (r + 1) <= x {
            assert((r + 1) * (r + 1) == x);
            assert(x < (r + 2) * (r + 2)) by (nonlinear_arith)
                requires
                    (r + 1) * (r + 1) == x,
                    0 <= r,
            ;
            assert(is_floor_sqrt(r + 1, x));
        } else {
            assert(is_floor_sqrt(r, x));
        }
    }
}

/// The variance of samples that all lie between `low` and `high` is at most
/// the square of `high - low`.
pub proof fn lemma_variance_within_range(s: Seq<u32>, low: int, high: int)
    requires
        s.len() > 0,
        forall|i: int| 0 <= i < s.len() ==> low <= #[trigger] s[i] <= high,
    ensures
        0 <= variance_of(s) <= (high - low) * (high - low),
{
    let n = s.len() as int;
    let a = sum_of_squares(s);
    let b = sum_of(s);
    let width = high - low;
    lemma_variance_not_negative(s);
    lemma_spread_within(s, low, high);
    // n * a - b^2 <= n * spread around `low`, and that is at most n^2 * width^2.
    assert(n * a - b * b <= (n * n) * (width * width)) by (nonlinear_arith)
        requires
            a - 2 * low * b + n * (low * low) <= n * (width * width),
            n >= 1,
    {
        assert(n * a - b * b == n * (a - 2 * low * b + n * (low * low)) - (b - n * low) * (b - n
            * low));
        assert((b - n * low) * (b - n * low) >= 0);
        assert(n * (a - 2 * low * b + n * (low * low)) <= n * (n * (width * width)));
    }
    assert(0 <= (n * a - b * b) / (n * n) <= width * width) by (nonlinear_arith)
        requires
            0 <= n * a - b * b <= (n * n) * (width * width),
            n >= 1,
    ;
}

/// The squared distances from `low` of samples between `low` and `high` add
/// up to at most `n * (high - low)^2`.
proof fn lemma_spread_within(s: Seq<u32>, low: int, high: int)
    requires
        forall|i: int| 0 <= i < s.len() ==> low <= #[trigger] s[i] <= high,
    ensures
        sum_of_squares(s) - 2 * low * sum_of(s) + s.len() * (low * low) <= s.len() * ((high - low)
            * (high - low)),
    decreases s.len(),
{
    if s.len() > 0 {
        let rest = s.drop_last();
        let x = s.last() as int;
        let m = rest.len() as int;
        let a = sum_of_squares(rest);
        let b = sum_of(rest);
        let width = high - low;
        assert(s[s.len() - 1] == x);
        lemma_spread_within(rest, low, high);
        assert((a + x * x) - 2 * low * (b + x) + (m + 1) * (low * low) <= (m + 1) * (width
            * width)) by (nonlinear_arith)
            requires
                a - 2 * low * b + m * (low * low) <= m * (width * width),
                low <= x <= high,
                width == high - low,
        {
            assert((a + x * x) - 2 * low * (b + x) + (m + 1) * (low * low) == (a - 2 * low * b + m
                * (low * low)) + (x - low) * (x - low));
            assert((x - low) * (x - low) <= width * width);
            assert((m + 1) * (width * width) == m * (width * width) + width * width);
        }
    }
}

/// The distances between consecutive samples that all lie between `low` and
/// `high` add up to at most `(n - 1) * (high - low)`.
proof fn lemma_variation_within_range(s: Seq<u32>, low: int, high: int)
    requires
        s.len() >= 1,
        forall|i: int| 0 <= i < s.len() ==> low <= #[trigger] s[i] <= high,
    ensures
        0 <= total_variation(s) <= (s.len() - 1) * (high - low),
    decreases s.len(),
{
    if s.len() >= 2 {
        let rest = s.drop_last();
        lemma_variation_within_range(rest, low, high);
        let m = rest.len() as int;
        let width = high - low;
        assert(low <= s[s.len() - 2] <= high);
        assert(low <= s[s.len() - 1] <= high);
        assert(m * width == (m - 1) * width + width) by (nonlinear_arith);
    }
}

/// Taking one sample out of a sequence takes it out of the sums.
proof fn lemma_sums_without(s: Seq<u32>, j: int)
    requires
        0 <= j < s.len(),
    ensures
        sum_of(s) == sum_of(s.remove(j)) + s[j],
        sum_of_squares(s) == sum_of_squares(s.remove(j)) + s[j] * s[j],
    decreases s.len(),
{
    if j == s.len() - 1 {
        assert(s.remove(j) =~= s.drop_last());
    } else {
        lemma_sums_without(s.drop_last(), j);
        assert(s.remove(j).drop_last() =~= s.drop_last().remove(j));
        assert(s.remove(j).last() == s.last());
    }
}

/// Two arrangements of the same samples have the same length.
proof fn lemma_rearranged(a: Seq<u32>, b: Seq<u32>)
    requires
        a.to_multiset() == b.to_multiset(),
    ensures
        a.len() == b.len(),
{
    to_multiset_len(a);
    to_multiset_len(b);
}

/// A sample of one arrangement occurs in every other arrangement.
proof fn lemma_rearranged_sample(a: Seq<u32>, b: Seq<u32>, x: u32)
    requires
        a.to_multiset() == b.to_multiset(),
        a.contains(x),
    ensures
        b.contains(x),
{
    to_multiset_contains(a, x);
    to_multiset_contains(b, x);
}

/// Two arrangements of the same samples have the same sums.
proof fn lemma_sums_of_rearrangement(a: Seq<u32>, b: Seq<u32>)
    requires
        a.to_multiset() == b.to_multiset(),
    ensures
        a.len() == b.len(),
        sum_of(a) == sum_of(b),
        sum_of_squares(a) == sum_of_squares(b),
    decreases a.len(),
{
    lemma_rearranged(a, b);
    if a.len() > 0 {
        let x = a.last();
        assert(a.contains(x));
        lemma_rearranged_sample(a, b, x);
        let j = b.index_of(x);
        assert(a.drop_last() =~= a.remove(a.len() - 1));
        to_multiset_remove(a, a.len() - 1);
        to_multiset_remove(b, j);
        lemma_sums_of_rearrangement(a.drop_last(), b.remove(j));
        lemma_sums_without(b, j);
    }
}

/// The order of the samples matters for the jitter alone: two arrangements
/// of the same samples agree in count, mean, median, minimum, maximum and
/// standard deviation.
pub proof fn lemma_statistics_ignore_order(a: Seq<u32>, b: Seq<u32>)
    requires
        a.to_multiset() == b.to_multiset(),
    ensures
        statistics_of(a).count == statistics_of(b).count,
        statistics_of(a).mean == statistics_of(b).mean,
        statistics_of(a).median == statistics_of(b).median,
        statistics_of(a).min == statistics_of(b).min,
        statistics_of(a).max == statistics_of(b).max,
        statistics_of(a).std_dev == statistics_of(b).std_dev,
{
    lemma_sums_of_rearrangement(a, b);
    if a.len() > 0 {
        a.lemma_sort_by_ensures(ascending());
        b.lemma_sort_by_ensures(ascending());
        lemma_sorted_unique(a.sort_by(ascending()), b.sort_by(ascending()), ascending());
        lemma_extremes_exist(a);
        let min = min_of(a);
        let max = max_of(a);
        let at_min = choose|i: int| 0 <= i < a.len() && a[i] == min;
        let at_max = choose|i: int| 0 <= i < a.len() && a[i] == max;
        assert(a.contains(a[at_min]) && a.contains(a[at_max]));
        lemma_rearranged_sample(a, b, a[at_min]);
        lemma_rearranged_sample(a, b, a[at_max]);
        let in_b_min = b.index_of(a[at_min]);
        let in_b_max = b.index_of(a[at_max]);
        assert forall|i: int| 0 <= i < b.len() implies min <= #[trigger] b[i] <= max by {
            assert(b.contains(b[i]));
            lemma_rearranged_sample(b, a, b[i]);
            let k = a.index_of(b[i]);
            assert(min <= a[k] <= max);
        }
        assert(b[in_b_min] == min && b[in_b_max] == max);
        assert(is_min_of(min, b));
        assert(is_max_of(max, b));
        lemma_extremes_unique(b, min, max);
    }
}

} // verus!
