//! Finite sums of integer-valued spec functions over a range, and the
//! facts about them that the counting arguments on grids use.

use vstd::prelude::*;
use crate::grid::population;
use crate::rules::alive;

verus! {

/// `f(lo) + f(lo + 1) + ... + f(hi - 1)`; zero on an empty range.
pub open spec fn sum(f: spec_fn(int) -> int, lo: int, hi: int) -> int
    decreases hi - lo,
{
    if hi <= lo {
        0
    } else {
        sum(f, lo, hi - 1) + f(hi - 1)
    }
}

/// A sum splits at any point of its range.
pub proof fn lemma_sum_split(f: spec_fn(int) -> int, lo: int, mid: int, hi: int)
    requires
        lo <= mid <= hi,
    ensures
        sum(f, lo, hi) == sum(f, lo, mid) + sum(f, mid, hi),
    decreases hi - mid,
{
    if hi > mid {
        lemma_sum_split(f, lo, mid, hi - 1);
    }
}

/// Sums are monotone in the summand.
pub proof fn lemma_sum_mono(f: spec_fn(int) -> int, g: spec_fn(int) -> int, lo: int, hi: int)
    requires
        forall|i: int| lo <= i < hi ==> #[trigger] f(i) <= g(i),
    ensures
        sum(f, lo, hi) <= sum(g, lo, hi),
    decreases hi - lo,
{
    if hi > lo {
        lemma_sum_mono(f, g, lo, hi - 1);
    }
}

/// Summands that agree on the range give equal sums.
pub proof fn lemma_sum_congruent(f: spec_fn(int) -> int, g: spec_fn(int) -> int, lo: int, hi: int)
    requires
        forall|i: int| lo <= i < hi ==> #[trigger] f(i) == g(i),
    ensures
        sum(f, lo, hi) == sum(g, lo, hi),
{
    lemma_sum_mono(f, g, lo, hi);
    lemma_sum_mono(g, f, lo, hi);
}

/// The sum of a pointwise sum is the sum of the sums.
pub proof fn lemma_sum_add(
    f: spec_fn(int) -> int,
    g: spec_fn(int) -> int,
    s: spec_fn(int) -> int,
    lo: int,
    hi: int,
)
    requires
        forall|i: int| lo <= i < hi ==> #[trigger] s(i) == f(i) + g(i),
    ensures
        sum(s, lo, hi) == sum(f, lo, hi) + sum(g, lo, hi),
    decreases hi - lo,
{
    if hi > lo {
        lemma_sum_add(f, g, s, lo, hi - 1);
    }
}

/// Shifting the argument shifts the range.
pub proof fn lemma_sum_shift(f: spec_fn(int) -> int, g: spec_fn(int) -> int, k: int, lo: int, hi: int)
    requires
        forall|i: int| lo <= i < hi ==> #[trigger] f(i) == g(i + k),
    ensures
        sum(f, lo, hi) == sum(g, lo + k, hi + k),
    decreases hi - lo,
{
    if hi > lo {
        lemma_sum_shift(f, g, k, lo, hi - 1);
    }
}

/// A sum of zeros is zero.
pub proof fn lemma_sum_zero(f: spec_fn(int) -> int, lo: int, hi: int)
    requires
        forall|i: int| lo <= i < hi ==> #[trigger] f(i) == 0,
    ensures
        sum(f, lo, hi) == 0,
    decreases hi - lo,
{
    if hi > lo {
        lemma_sum_zero(f, lo, hi - 1);
    }
}

/// A sum of non-negative terms is non-negative.
pub proof fn lemma_sum_nonneg(f: spec_fn(int) -> int, lo: int, hi: int)
    requires
        forall|i: int| lo <= i < hi ==> #[trigger] f(i) >= 0,
    ensures
        sum(f, lo, hi) >= 0,
    decreases hi - lo,
{
    if hi > lo {
        lemma_sum_nonneg(f, lo, hi - 1);
    }
}

/// A non-negative function that vanishes outside `[0, n)` sums over any
/// range to at most its sum over `[0, n)`.
pub proof fn lemma_sum_window(g: spec_fn(int) -> int, n: int, lo: int, hi: int)
    requires
        0 <= n,
        lo <= hi,
        forall|i: int| #[trigger] g(i) >= 0,
        forall|i: int| (i < 0 || i >= n) ==> #[trigger] g(i) == 0,
    ensures
        sum(g, lo, hi) <= sum(g, 0, n),
{
    let a = if lo < 0 { lo } else { 0 };
    let b = if hi > n { hi } else { n };
    lemma_sum_split(g, a, lo, hi);
    lemma_sum_split(g, a, hi, b);
    lemma_sum_split(g, a, lo, b);
    lemma_sum_nonneg(g, a, lo);
    lemma_sum_nonneg(g, hi, b);
    lemma_sum_split(g, a, 0, b);
    lemma_sum_split(g, 0, n, b);
    lemma_sum_zero(g, a, 0);
    lemma_sum_zero(g, n, b);
}

/// The indicator of a single point sums to one over a range holding it and
/// to zero over any other.
pub proof fn lemma_sum_point(f: spec_fn(int) -> int, j: int, lo: int, hi: int)
    requires
        forall|i: int| #[trigger] f(i) == if i == j { 1int } else { 0 },
    ensures
        sum(f, lo, hi) == if lo <= j < hi { 1int } else { 0 },
    decreases hi - lo,
{
    if hi > lo {
        lemma_sum_point(f, j, lo, hi - 1);
    }
}

/// One for a live cell at index `i` of `cells`, zero elsewhere (also off
/// the buffer).
pub open spec fn live_at_index(cells: Seq<u32>) -> spec_fn(int) -> int {
    |i: int|
        if 0 <= i < cells.len() && alive(cells[i]) {
            1int
        } else {
            0
        }
}

/// The population is the sum of the live indicators.
pub proof fn lemma_population_is_sum(cells: Seq<u32>)
    ensures
        population(cells) == sum(live_at_index(cells), 0, cells.len() as int),
    decreases cells.len(),
{
    if cells.len() > 0 {
        let rest = cells.drop_last();
        lemma_population_is_sum(rest);
        lemma_sum_congruent(live_at_index(rest), live_at_index(cells), 0, rest.len() as int);
    }
}

} // verus!
