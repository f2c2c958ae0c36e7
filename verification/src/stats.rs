//! Order statistics over milli-unit values: median (upper median for
//! even-length input), arithmetic mean, and population standard deviation,
//! all exact over the fixed-point model.

use vstd::prelude::*;

use crate::numeric::{apply_divisor, isqrt, spec_div_round, MAX_MILLI, MAX_SAMPLES};
use vstd::arithmetic::div_mod::lemma_multiply_divide_lt;
use vstd::multiset::Multiset;

verus! {

/// Statistics of one metric, in milli-units, after unit conversion.
#[derive(Clone, Copy, PartialEq, Eq, Structural, Debug)]
pub struct MetricStatistics {
    pub median: u64,
    pub average: u64,
    pub standard_deviation: u64,
}

/// The statistics engine's error: the designed signal for an empty input
/// list, instead of an out-of-bounds index or a division by zero.
#[derive(Clone, Copy, PartialEq, Eq, Structural, Debug)]
pub enum StatisticsError {
    EmptyInput,
}

/// Non-decreasing order.
pub open spec fn spec_sorted(s: Seq<u64>) -> bool {
    forall|i: int, j: int| 0 <= i < j < s.len() ==> s[i] <= s[j]
}

/// The sum of a value list.
pub open spec fn sum_of(s: Seq<u64>) -> int
    decreases s.len(),
{
    if s.len() == 0 {
        0
    } else {
        sum_of(s.drop_last()) + s.last()
    }
}

/// The arithmetic mean of a non-empty value list, rounded to the nearest
/// integer with halves rounded up.
pub open spec fn spec_average(s: Seq<u64>) -> int {
    (2 * sum_of(s) + s.len()) / (2 * s.len() as int)
}

/// The sum of squared deviations from `avg`.
pub open spec fn sq_dev_sum(s: Seq<u64>, avg: int) -> int
    decreases s.len(),
{
    if s.len() == 0 {
        0
    } else {
        sq_dev_sum(s.drop_last(), avg) + (s.last() - avg) * (s.last() - avg)
    }
}

/// The integer square root of `n`.
pub closed spec fn spec_isqrt(n: int) -> int {
    choose|r: int| 0 <= r && #[trigger] (r * r) <= n < (r + 1) * (r + 1)
}

/// For every non-negative `n` there is exactly one integer square root,
/// and `spec_isqrt` denotes it.
pub proof fn lemma_isqrt_exists(n: int)
    requires
        n >= 0,
    ensures
        0 <= spec_isqrt(n),
        spec_isqrt(n) * spec_isqrt(n) <= n,
        n < (spec_isqrt(n) + 1) * (spec_isqrt(n) + 1),
    decreases n,
{
    if n == 0 {
        let z: int = 0;
        assert(0 <= z && z * z <= n && n < (z + 1) * (z + 1));
        assert(exists|r: int| 0 <= r && #[trigger] (r * r) <= n < (r + 1) * (r + 1));
    } else {
        lemma_isqrt_exists(n - 1);
        let p = spec_isqrt(n - 1);
        if (p + 1) * (p + 1) <= n {
            let q = p + 1;
            assert(n - 1 < (p + 1) * (p + 1));
            assert(n < (q + 1) * (q + 1)) by (nonlinear_arith)
                requires
                    n <= (q) * (q),
                    q >= 0,
            ;
            assert(0 <= q && q * q <= n < (q + 1) * (q + 1));
            assert(exists|r: int| 0 <= r && #[trigger] (r * r) <= n < (r + 1) * (r + 1));
        } else {
            assert(0 <= p && p * p <= n < (p + 1) * (p + 1));
            assert(exists|r: int| 0 <= r && #[trigger] (r * r) <= n < (r + 1) * (r + 1));
        }
    }
}

/// Two integer square roots of the same value coincide.
pub proof fn lemma_isqrt_unique(n: int, r1: int, r2: int)
    requires
        0 <= r1,
        r1 * r1 <= n < (r1 + 1) * (r1 + 1),
        0 <= r2,
        r2 * r2 <= n < (r2 + 1) * (r2 + 1),
    ensures
        r1 == r2,
{
    assert(r1 == r2) by (nonlinear_arith)
        requires
            0 <= r1,
            r1 * r1 <= n < (r1 + 1) * (r1 + 1),
            0 <= r2,
            r2 * r2 <= n < (r2 + 1) * (r2 + 1),
    ;
}

/// Sorted sequences with the same multiset of elements are equal: the
/// sorted form of a value list is unique.
pub proof fn lemma_sorted_unique(a: Seq<u64>, b: Seq<u64>)
    requires
        spec_sorted(a),
        spec_sorted(b),
        a.to_multiset() == b.to_multiset(),
    ensures
        a == b,
    decreases a.len(),
{
    broadcast use vstd::seq_lib::group_to_multiset_ensures;
    broadcast use vstd::multiset::group_multiset_axioms;

    assert(a.len() == a.to_multiset().len());
    assert(b.len() == b.to_multiset().len());
    if a.len() == 0 {
        assert(a =~= b);
    } else {
        let la = a.last();
        let lb = b.last();
        assert(a.contains(la));
        assert(b.contains(lb));
        assert(b.to_multiset().count(la) > 0);
        assert(b.contains(la));
        assert(a.to_multiset().count(lb) > 0);
        assert(a.contains(lb));
        let ia = choose|i: int| 0 <= i < a.len() && a[i] == lb;
        let ib = choose|i: int| 0 <= i < b.len() && b[i] == la;
        assert(la <= lb);
        assert(lb <= la);
        let a1 = a.drop_last();
        let b1 = b.drop_last();
        assert(a1 =~= a.remove(a.len() - 1));
        assert(b1 =~= b.remove(b.len() - 1));
        assert(a1.to_multiset() =~= a.to_multiset().remove(la));
        assert(b1.to_multiset() =~= b.to_multiset().remove(lb));
        assert(a1.to_multiset() == b1.to_multiset());
        lemma_sorted_unique(a1, b1);
        assert(a =~= a1.push(la));
        assert(b =~= b1.push(lb));
    }
}

/// Sorts a copy of the values into non-decreasing order.
///
/// Returns a sequence with the same multiset of elements, sorted.
pub fn sort_values(values: &Vec<u64>) -> (r: Vec<u64>)
    ensures
        spec_sorted(r@),
        r@.to_multiset() == values@.to_multiset(),
        r@.len() == values@.len(),
{
    broadcast use vstd::seq_lib::group_to_multiset_ensures;
    broadcast use vstd::multiset::group_multiset_axioms;

    let mut src: Vec<u64> = Vec::new();
    let mut i: usize = 0;
    while i < values.len()
        invariant
            i <= values@.len(),
            src@ =~= values@.take(i as int),
        decreases values@.len() - i,
    {
        src.push(values[i]);
        i = i + 1;
    }
    proof {
        assert(src@ =~= values@);
    }
    let ghost total = values@.to_multiset();
    let mut out: Vec<u64> = Vec::new();
    proof {
        assert(out@.to_multiset().add(src@.to_multiset()) =~= total);
    }
    while src.len() > 0
        invariant
            out@.to_multiset().add(src@.to_multiset()) == total,
            spec_sorted(out@),
            forall|x: int, y: int|
                0 <= x < out@.len() && 0 <= y < src@.len() ==> out@[x] <= src@[y],
        decreases src@.len(),
    {
        let mut m: usize = 0;
        let mut k: usize = 1;
        while k < src.len()
            invariant
                m < k <= src@.len(),
                forall|j: int| 0 <= j < k ==> src@[m as int] <= src@[j],
            decreases src@.len() - k,
        {
            if src[k] < src[m] {
                m = k;
            }
            k = k + 1;
        }
        let ghost pre = src@;
        let x = src.remove(m);
        proof {
            broadcast use vstd::multiset::group_multiset_axioms;

            vstd::seq_lib::to_multiset_remove(pre, m as int);
            vstd::seq_lib::to_multiset_contains(pre, x);
            assert(src@ == pre.remove(m as int));
            assert(pre.contains(x));
            assert(pre.to_multiset().count(x) > 0);
        }
        let ghost preout = out@;
        out.push(x);
        proof {
            broadcast use vstd::multiset::group_multiset_axioms;

            vstd::seq_lib::to_multiset_build(preout, x);
            assert(out@.to_multiset() =~= preout.to_multiset().insert(x));
            assert(out@.to_multiset().add(src@.to_multiset()) =~= total);
            assert forall|y: int| 0 <= y < src@.len() implies x <= src@[y] by {
                if y < m {
                    assert(src@[y] == pre[y]);
                } else {
                    assert(src@[y] == pre[y + 1]);
                }
            }
        }
    }
    proof {
        broadcast use vstd::multiset::group_multiset_axioms;

        vstd::seq_lib::to_multiset_len(src@);
        vstd::seq_lib::to_multiset_len(out@);
        vstd::seq_lib::to_multiset_len(values@);
        assert(src@.to_multiset() =~= Multiset::empty());
        assert(out@.to_multiset() =~= total);
        assert(out@.len() == out@.to_multiset().len());
        assert(values@.len() == total.len());
    }
    out
}

/// The upper median: the element at index `len / 2` of the sorted value
/// list. For even-length lists this is the upper of the two middle
/// elements (the list `[1, 2, 3, 4]` has median 3), a defined tie-break.
///
/// The contract quantifies over every sorted permutation of the input:
/// the sorted form is unique, so this pins the result exactly.
pub fn median(values: &Vec<u64>) -> (r: u64)
    requires
        values@.len() > 0,
    ensures
        forall|s: Seq<u64>|
            spec_sorted(s) && s.to_multiset() == values@.to_multiset() ==> r == s[s.len() as int
                / 2],
        values@.to_multiset().contains(r),
{
    broadcast use vstd::seq_lib::group_to_multiset_ensures;

    let sorted = sort_values(values);
    let r = sorted[sorted.len() / 2];
    proof {
        assert(sorted@.to_multiset().count(r) > 0);
        assert forall|s: Seq<u64>|
            spec_sorted(s) && s.to_multiset() == values@.to_multiset() implies r == s[s.len() as int
            / 2] by {
            lemma_sorted_unique(s, sorted@);
        }
    }
    r
}

/// Every element of `s` at most `bound` bounds the sum by `len * bound`.
proof fn lemma_sum_bound(s: Seq<u64>, bound: int)
    requires
        forall|i: int| 0 <= i < s.len() ==> s[i] <= bound,
    ensures
        0 <= sum_of(s) <= s.len() * bound,
    decreases s.len(),
{
    if s.len() == 0 {
    } else {
        lemma_sum_bound(s.drop_last(), bound);
        assert(s.drop_last().len() as int * bound + bound == s.len() as int * bound)
            by (nonlinear_arith)
            requires
                s.len() >= 1 && s.drop_last().len() == s.len() - 1,
        ;
    }
}

/// The arithmetic mean of the values, rounded to the nearest milli-unit
/// (halves rounded up).
pub fn average(values: &Vec<u64>) -> (r: u64)
    requires
        values@.len() > 0,
        values@.len() <= MAX_SAMPLES,
        forall|i: int| 0 <= i < values@.len() ==> values@[i] <= MAX_MILLI,
    ensures
        r == spec_average(values@),
        r <= MAX_MILLI,
{
    let n = values.len();
    let mut sum: u128 = 0;
    let mut i: usize = 0;
    proof {
        lemma_sum_bound(values@, MAX_MILLI as int);
    }
    while i < n
        invariant
            i <= n == values@.len() <= MAX_SAMPLES,
            forall|j: int| 0 <= j < values@.len() ==> values@[j] <= MAX_MILLI,
            sum == sum_of(values@.take(i as int)),
            sum <= (i as int) * (MAX_MILLI as int),
        decreases n - i,
    {
        proof {
            assert(values@.take(i as int + 1).drop_last() =~= values@.take(i as int));
            assert(values@.take(i as int + 1).last() == values@[i as int]);
            assert((i as int) * (MAX_MILLI as int) + MAX_MILLI == (i as int + 1) * (
            MAX_MILLI as int)) by (nonlinear_arith);
            assert((i as int + 1) * (MAX_MILLI as int) <= (MAX_SAMPLES as int) * (
            MAX_MILLI as int)) by (nonlinear_arith)
                requires
                    i + 1 <= MAX_SAMPLES,
            ;
        }
        sum = sum + values[i] as u128;
        i = i + 1;
    }
    proof {
        assert(values@.take(n as int) =~= values@);
    }
    let num: u128 = 2 * sum + n as u128;
    let den: u128 = 2 * (n as u128);
    let q: u128 = num / den;
    proof {
        let s = sum_of(values@);
        let l = values@.len() as int;
        let m = MAX_MILLI as int;
        assert(2 * s + l < (2 * l) * (m + 1)) by (nonlinear_arith)
            requires
                s <= l * m,
                l >= 1,
        ;
        lemma_multiply_divide_lt(2 * s + l, 2 * l, m + 1);
    }
    q as u64
}

/// Every squared deviation of a value at most `bound` from a mean at most
/// `bound` keeps the squared-deviation sum below `len * bound^2`.
proof fn lemma_sq_dev_sum_bound(s: Seq<u64>, avg: int, bound: int)
    requires
        0 <= avg <= bound,
        forall|i: int| 0 <= i < s.len() ==> s[i] <= bound,
    ensures
        0 <= sq_dev_sum(s, avg) <= s.len() * (bound * bound),
    decreases s.len(),
{
    if s.len() == 0 {
    } else {
        lemma_sq_dev_sum_bound(s.drop_last(), avg, bound);
        let d = s.last() - avg;
        assert(0 <= d * d <= bound * bound) by (nonlinear_arith)
            requires
                -bound <= d <= bound,
        ;
        assert(s.drop_last().len() as int * (bound * bound) + bound * bound == s.len() as int * (
        bound * bound)) by (nonlinear_arith)
            requires
                s.len() >= 1 && s.drop_last().len() == s.len() - 1,
        ;
    }
}

/// The population standard deviation around `average`: the integer square
/// root of `sum((x - average)^2) / len` (division by `len`, not
/// `len - 1`). Exact whenever the variance is a perfect square.
pub fn standard_deviation(values: &Vec<u64>, average: u64) -> (r: u64)
    requires
        values@.len() > 0,
        values@.len() <= MAX_SAMPLES,
        forall|i: int| 0 <= i < values@.len() ==> values@[i] <= MAX_MILLI,
        average <= MAX_MILLI,
    ensures
        r == spec_isqrt(sq_dev_sum(values@, average as int) / (values@.len() as int)),
{
    let n = values.len();
    let ghost m = MAX_MILLI as int;
    let ghost m2 = (MAX_MILLI as int) * (MAX_MILLI as int);
    let mut sq: u128 = 0;
    let mut i: usize = 0;
    proof {
        lemma_sq_dev_sum_bound(values@, average as int, m);
    }
    while i < n
        invariant
            i <= n == values@.len() <= MAX_SAMPLES,
            forall|j: int| 0 <= j < values@.len() ==> values@[j] <= MAX_MILLI,
            average <= MAX_MILLI,
            m == MAX_MILLI as int,
            m2 == m * m,
            sq == sq_dev_sum(values@.take(i as int), average as int),
            sq <= (i as int) * m2,
        decreases n - i,
    {
        let v = values[i];
        let diff: u64 = if v >= average {
            v - average
        } else {
            average - v
        };
        proof {
            assert(values@.take(i as int + 1).drop_last() =~= values@.take(i as int));
            let d = values@[i as int] - average;
            assert(d * d == (diff as int) * (diff as int) && (diff as int) * (diff as int) <= m2)
                by (nonlinear_arith)
                requires
                    diff == if d >= 0 {
                        d
                    } else {
                        -d
                    },
                    -m <= d <= m,
                    m2 == m * m,
            ;
            assert((i as int) * m2 + m2 == (i as int + 1) * m2) by (nonlinear_arith);
            assert((i as int + 1) * m2 <= (MAX_SAMPLES as int) * m2) by (nonlinear_arith)
                requires
                    i + 1 <= MAX_SAMPLES,
                    m2 >= 0,
            ;
            assert((MAX_SAMPLES as int) * m2 < 0x4000_0000_0000_0000_0000_0000_0000_0000)
                by (nonlinear_arith)
                requires
                    m2 == (MAX_MILLI as int) * (MAX_MILLI as int),
            ;
        }
        sq = sq + (diff as u128) * (diff as u128);
        i = i + 1;
    }
    proof {
        assert(values@.take(n as int) =~= values@);
        assert((n as int) * m2 <= (MAX_SAMPLES as int) * m2) by (nonlinear_arith)
            requires
                n <= MAX_SAMPLES,
                m2 >= 0,
        ;
        assert((MAX_SAMPLES as int) * m2 < 0x4000_0000_0000_0000_0000_0000_0000_0000)
            by (nonlinear_arith)
            requires
                m2 == (MAX_MILLI as int) * (MAX_MILLI as int),
        ;
    }
    let q: u128 = sq / (n as u128);
    proof {
        assert(q <= sq) by (nonlinear_arith)
            requires
                n >= 1,
                q == sq as int / (n as int),
                sq >= 0,
        ;
    }
    let r = isqrt(q);
    proof {
        lemma_isqrt_exists(q as int);
        lemma_isqrt_unique(q as int, r as int, spec_isqrt(q as int));
    }
    r
}

/// The three statistics of `values` under unit divisor `divisor`: the
/// (upper) median of any sorted permutation, the rounded mean, and the
/// population standard deviation, each divided by `divisor` (rounded to
/// the nearest milli-unit).
pub open spec fn stats_ok(values: Seq<u64>, divisor: int, st: MetricStatistics) -> bool {
    &&& forall|s: Seq<u64>|
        spec_sorted(s) && s.to_multiset() == values.to_multiset() ==> st.median == spec_div_round(
            s[s.len() as int / 2] as int,
            divisor,
        )
    &&& st.average == spec_div_round(spec_average(values), divisor)
    &&& st.standard_deviation == spec_div_round(
        spec_isqrt(sq_dev_sum(values, spec_average(values)) / (values.len() as int)),
        divisor,
    )
}

/// Computes the three statistics over a raw value list and applies the
/// unit divisor to each uniformly.
///
/// Returns `Err(StatisticsError::EmptyInput)` exactly when the list is
/// empty; otherwise every statistic is pinned by [`stats_ok`].
pub fn compute_statistics(values: &Vec<u64>, divisor: u64) -> (r: Result<
    MetricStatistics,
    StatisticsError,
>)
    requires
        values@.len() <= MAX_SAMPLES,
        forall|i: int| 0 <= i < values@.len() ==> values@[i] <= MAX_MILLI,
        divisor >= 1,
    ensures
        r is Err <==> values@.len() == 0,
        r is Err ==> r->Err_0 == StatisticsError::EmptyInput,
        r is Ok ==> stats_ok(values@, divisor as int, r->Ok_0),
{
    if values.len() == 0 {
        return Err(StatisticsError::EmptyInput);
    }
    let med = median(values);
    let avg = average(values);
    let std = standard_deviation(values, avg);
    proof {
        broadcast use vstd::seq_lib::group_to_multiset_ensures;

        assert(values@.contains(med));
    }
    Ok(
        MetricStatistics {
            median: apply_divisor(med, divisor),
            average: apply_divisor(avg, divisor),
            standard_deviation: apply_divisor(std, divisor),
        },
    )
}

} // verus!
