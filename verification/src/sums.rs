//! Finite sums of real numbers.
use vstd::prelude::*;

verus! {

/// The sum of `f(0)`, ..., `f(n - 1)`.
pub open spec fn sum(n: int, f: spec_fn(int) -> real) -> real
    decreases n,
{
    if n <= 0 {
        0real
    } else {
        sum(n - 1, f) + f(n - 1)
    }
}

/// Sums of equal terms are equal.
pub proof fn lemma_sum_eq(n: int, f: spec_fn(int) -> real, g: spec_fn(int) -> real)
    requires
        forall|i: int| 0 <= i < n ==> #[trigger] f(i) == g(i),
    ensures
        sum(n, f) == sum(n, g),
    decreases n,
{
    if n > 0 {
        lemma_sum_eq(n - 1, f, g);
        assert(f(n - 1) == g(n - 1));
    }
}

/// A common factor can be taken out of a sum.
pub proof fn lemma_sum_scale(n: int, c: real, f: spec_fn(int) -> real, g: spec_fn(int) -> real)
    requires
        forall|i: int| 0 <= i < n ==> #[trigger] g(i) == c * f(i),
    ensures
        sum(n, g) == c * sum(n, f),
    decreases n,
{
    if n > 0 {
        lemma_sum_scale(n - 1, c, f, g);
        assert(g(n - 1) == c * f(n - 1));
        let s: real = sum(n - 1, f);
        let x: real = f(n - 1);
        assert(c * s + c * x == c * (s + x)) by (nonlinear_arith);
    } else {
        assert(c * 0real == 0real) by (nonlinear_arith);
    }
}

/// Sums can be added term by term.
pub proof fn lemma_sum_add(
    n: int,
    f: spec_fn(int) -> real,
    g: spec_fn(int) -> real,
    h: spec_fn(int) -> real,
)
    requires
        forall|i: int| 0 <= i < n ==> #[trigger] h(i) == f(i) + g(i),
    ensures
        sum(n, h) == sum(n, f) + sum(n, g),
    decreases n,
{
    if n > 0 {
        lemma_sum_add(n - 1, f, g, h);
        assert(h(n - 1) == f(n - 1) + g(n - 1));
    }
}

/// A sum of zeros.
pub proof fn lemma_sum_zero(n: int, f: spec_fn(int) -> real)
    requires
        forall|i: int| 0 <= i < n ==> #[trigger] f(i) == 0real,
    ensures
        sum(n, f) == 0real,
    decreases n,
{
    if n > 0 {
        lemma_sum_zero(n - 1, f);
        assert(f(n - 1) == 0real);
    }
}

/// A double sum: for each `i` the sum over `j`.
pub open spec fn sum2(m: int, n: int, f: spec_fn(int, int) -> real) -> real {
    sum(m, |i: int| sum(n, |j: int| f(i, j)))
}

/// The order of summation does not matter.
pub proof fn lemma_sum2_swap(
    m: int,
    n: int,
    f: spec_fn(int, int) -> real,
    g: spec_fn(int, int) -> real,
)
    requires
        forall|i: int, j: int| 0 <= i < m && 0 <= j < n ==> f(i, j) == #[trigger] g(j, i),
    ensures
        sum2(m, n, f) == sum2(n, m, g),
    decreases m,
{
    let fi: spec_fn(int) -> real = |i: int| sum(n, |j: int| f(i, j));
    let gj: spec_fn(int) -> real = |j: int| sum(m, |i: int| g(j, i));
    if m <= 0 {
        assert forall|j: int| 0 <= j < n implies #[trigger] gj(j) == 0real by {
        }
        lemma_sum_zero(n, gj);
    } else {
        lemma_sum2_swap(m - 1, n, f, g);
        let part: spec_fn(int) -> real = |j: int| sum(m - 1, |i: int| g(j, i));
        let last: spec_fn(int) -> real = |j: int| f(m - 1, j);
        assert forall|j: int| 0 <= j < n implies #[trigger] gj(j) == part(j) + last(j) by {
            let column: spec_fn(int) -> real = |i: int| g(j, i);
            assert(sum(m, column) == sum(m - 1, column) + column(m - 1));
            assert(g(j, m - 1) == f(m - 1, j));
        }
        lemma_sum_add(n, part, last, gj);
        assert(sum(m, fi) == sum(m - 1, fi) + fi(m - 1));
    }
}

/// Summing row by row.
pub proof fn lemma_sum_rows(
    m: int,
    n: int,
    f: spec_fn(int) -> real,
    g: spec_fn(int, int) -> real,
)
    requires
        m >= 0,
        n >= 0,
        forall|i: int, j: int| 0 <= i < m && 0 <= j < n ==> #[trigger] g(i, j) == f(i * n + j),
    ensures
        sum(m * n, f) == sum2(m, n, g),
    decreases m,
{
    let gi: spec_fn(int) -> real = |i: int| sum(n, |j: int| g(i, j));
    if m > 0 {
        lemma_sum_rows(m - 1, n, f, g);
        assert((m - 1) * n + n == m * n) by (nonlinear_arith);
        assert((m - 1) * n >= 0) by (nonlinear_arith)
            requires
                m > 0,
                n >= 0,
        ;
        let row: spec_fn(int) -> real = |j: int| g(m - 1, j);
        assert forall|j: int| 0 <= j < n implies #[trigger] row(j) == f((m - 1) * n + j) by {
            assert(g(m - 1, j) == f((m - 1) * n + j));
        }
        lemma_sum_append((m - 1) * n, n, f, row);
        assert(sum(m, gi) == sum(m - 1, gi) + gi(m - 1));
    } else {
        assert(m * n == 0) by (nonlinear_arith)
            requires
                m == 0,
        ;
    }
}

/// A sum in two parts.
proof fn lemma_sum_append(start: int, n: int, f: spec_fn(int) -> real, g: spec_fn(int) -> real)
    requires
        start >= 0,
        n >= 0,
        forall|j: int| 0 <= j < n ==> #[trigger] g(j) == f(start + j),
    ensures
        sum(start + n, f) == sum(start, f) + sum(n, g),
    decreases n,
{
    if n > 0 {
        lemma_sum_append(start, n - 1, f, g);
        assert(g(n - 1) == f(start + (n - 1)));
        assert(start + n - 1 == start + (n - 1));
    }
}

} // verus!
