//! Mathematical model of the window statistics.
//!
//! The regulator's stability test compares the population standard
//! deviation of the window against a threshold of one. Over integer
//! samples that comparison is exact arithmetic: with `n` samples,
//! `stddev < 1` holds if and only if `n * sum of squares - (sum)^2`
//! is below `n * n`. This module defines those sums over sequences and
//! proves the shift identity the executable computation relies on: the
//! scaled variance is unchanged when every sample is lowered by a
//! common offset.

use vstd::prelude::*;

verus! {

/// The samples as mathematical integers.
pub open spec fn int_seq(w: Seq<u64>) -> Seq<int> {
    w.map_values(|x: u64| x as int)
}

/// Sum of a sequence of integers.
pub open spec fn sum(s: Seq<int>) -> int
    decreases s.len(),
{
    if s.len() == 0 {
        0
    } else {
        sum(s.drop_last()) + s.last()
    }
}

/// Sum of the squares of a sequence of integers.
pub open spec fn sum_sq(s: Seq<int>) -> int
    decreases s.len(),
{
    if s.len() == 0 {
        0
    } else {
        sum_sq(s.drop_last()) + s.last() * s.last()
    }
}

/// Each sample shifted down by a common offset `c`.
pub open spec fn deviations(w: Seq<u64>, c: int) -> Seq<int> {
    w.map_values(|x: u64| x - c)
}

/// `n * n` times the population variance of the samples:
/// `n * sum(x^2) - (sum x)^2`.
pub open spec fn scaled_variance(w: Seq<u64>) -> int {
    w.len() * sum_sq(int_seq(w)) - sum(int_seq(w)) * sum(int_seq(w))
}

/// Population standard deviation strictly below one. For a non-empty
/// window this is exactly `sqrt(mean((x - mean)^2)) < 1`.
pub open spec fn is_stable_window(w: Seq<u64>) -> bool {
    scaled_variance(w) < w.len() * w.len()
}

/// Shifting every sample by `c` lowers the sum by `n * c`.
pub proof fn lemma_sum_deviations(w: Seq<u64>, c: int)
    ensures
        sum(deviations(w, c)) == sum(int_seq(w)) - w.len() * c,
    decreases w.len(),
{
    if w.len() == 0 {
        assert(deviations(w, c).len() == 0);
        assert(int_seq(w).len() == 0);
    } else {
        lemma_sum_deviations(w.drop_last(), c);
        assert(deviations(w, c).drop_last() =~= deviations(w.drop_last(), c));
        assert(int_seq(w).drop_last() =~= int_seq(w.drop_last()));
        assert(deviations(w, c).last() == w.last() - c);
        assert(int_seq(w).last() == w.last() as int);
        assert((w.len() - 1) * c + c == w.len() * c) by (nonlinear_arith);
    }
}

/// Shifting every sample by `c` changes the sum of squares by
/// `-2 * c * sum + n * c^2`.
pub proof fn lemma_sum_sq_deviations(w: Seq<u64>, c: int)
    ensures
        sum_sq(deviations(w, c)) == sum_sq(int_seq(w)) - 2 * c * sum(int_seq(w)) + w.len() * c
            * c,
    decreases w.len(),
{
    if w.len() == 0 {
        assert(deviations(w, c).len() == 0);
        assert(int_seq(w).len() == 0);
    } else {
        lemma_sum_sq_deviations(w.drop_last(), c);
        lemma_sum_deviations(w.drop_last(), c);
        assert(deviations(w, c).drop_last() =~= deviations(w.drop_last(), c));
        assert(int_seq(w).drop_last() =~= int_seq(w.drop_last()));
        let x = w.last() as int;
        let n = w.len() as int;
        let ssq = sum_sq(int_seq(w.drop_last()));
        let s = sum(int_seq(w.drop_last()));
        assert(deviations(w, c).last() == x - c);
        assert(int_seq(w).last() == x);
        assert(sum_sq(deviations(w, c)) == (ssq - 2 * c * s + (n - 1) * c * c) + (x - c) * (x
            - c));
        assert(sum_sq(int_seq(w)) == ssq + x * x);
        assert(sum(int_seq(w)) == s + x);
        assert((ssq - 2 * c * s + (n - 1) * c * c) + (x - c) * (x - c) == (ssq + x * x) - 2 * c * (
        s + x) + n * c * c) by (nonlinear_arith);
    }
}

/// The scaled variance is invariant under shifting all samples by `c`:
/// it can be computed from the deviations alone.
pub proof fn lemma_scaled_variance_by_deviations(w: Seq<u64>, c: int)
    ensures
        scaled_variance(w) == w.len() * sum_sq(deviations(w, c)) - sum(deviations(w, c)) * sum(
            deviations(w, c),
        ),
{
    lemma_sum_deviations(w, c);
    lemma_sum_sq_deviations(w, c);
    let n = w.len() as int;
    let s = sum(int_seq(w));
    let ssq = sum_sq(int_seq(w));
    assert(n * (ssq - 2 * c * s + n * c * c) - (s - n * c) * (s - n * c) == n * ssq - s * s)
        by (nonlinear_arith);
}

/// A sum of squares is never negative.
pub proof fn lemma_sum_sq_nonneg(s: Seq<int>)
    ensures
        sum_sq(s) >= 0,
    decreases s.len(),
{
    if s.len() > 0 {
        lemma_sum_sq_nonneg(s.drop_last());
        assert(s.last() * s.last() >= 0) by (nonlinear_arith);
    }
}

/// A sum of squares is at least the square of any one element.
pub proof fn lemma_sum_sq_ge_elem(s: Seq<int>, j: int)
    requires
        0 <= j < s.len(),
    ensures
        sum_sq(s) >= s[j] * s[j],
    decreases s.len(),
{
    if j == s.len() - 1 {
        lemma_sum_sq_nonneg(s.drop_last());
    } else {
        lemma_sum_sq_ge_elem(s.drop_last(), j);
        assert(s.drop_last()[j] == s[j]);
        assert(s.last() * s.last() >= 0) by (nonlinear_arith);
    }
}

} // verus!
