//! What the gradients of products are.
use vstd::prelude::*;

use crate::autodiff::{
    folded_shape, folds_to, is_lhs_grad, is_rhs_grad, takes_lhs_grad, takes_rhs_grad, Operation,
};
use crate::backend::Backend;
use crate::shape::{all_natural, as_dims, lemma_product_natural, lemma_product_take, product};
use crate::sums::{lemma_sum2_swap, lemma_sum_eq, lemma_sum_rows, lemma_sum_scale, sum, sum2};
use crate::tensor::{matmul_shape, matmul_shapes, transposed_shape, Tensor};

verus! {

/// The dimensions before the two innermost ones.
pub open spec fn batch(shape: Seq<int>) -> Seq<int> {
    shape.take(shape.len() - 2)
}

/// The matrix of a tensor with the batch dimensions `dims` that takes part in the matrix number
/// `b` of a product with the batch dimensions `out`: dimensions of length one are repeated.
pub open spec fn batch_in(dims: Seq<int>, out: Seq<int>, b: int) -> int
    decreases dims.len(),
{
    if dims.len() == 0 {
        0
    } else {
        let inner: int = product(out.skip(1));
        let first: int = if dims[0] == 1 {
            0
        } else {
            b / inner
        };
        first * product(dims.skip(1)) + batch_in(dims.skip(1), out.skip(1), b % inner)
    }
}

/// The element in row `i` and column `j` of the matrix number `b` of a tensor.
pub open spec fn cell<E>(t: Tensor<E>, b: int, i: int, j: int) -> E {
    let rank: int = t.shape.len() as int;
    t.data[(b * t.shape[rank - 2] + i) * t.shape[rank - 1] + j]
}

/// `out` is the matrix product of `lhs` and `rhs`, without rounding, where `value` gives the number
/// that an element stands for.
pub open spec fn is_exact_product<E>(
    value: spec_fn(E) -> real,
    lhs: Tensor<E>,
    rhs: Tensor<E>,
    out: Tensor<E>,
) -> bool {
    let rank: int = lhs.shape.len() as int;
    let batches: Seq<int> = batch(out.shape);
    &&& out.shape == matmul_shape(lhs.shape, rhs.shape)
    &&& forall|b: int, i: int, j: int|
        0 <= b < product(batches) && 0 <= i < lhs.shape[rank - 2] && 0 <= j < rhs.shape[rank - 1]
            ==> value(#[trigger] cell(out, b, i, j)) == sum(
            lhs.shape[rank - 1],
            |p: int|
                value(cell(lhs, batch_in(batch(lhs.shape), batches, b), i, p)) * value(
                    cell(rhs, batch_in(batch(rhs.shape), batches, b), p, j),
                ),
        )
}

/// The sum of the products of corresponding elements.
pub open spec fn inner_product<E>(value: spec_fn(E) -> real, x: Tensor<E>, y: Tensor<E>) -> real {
    sum(x.data.len() as int, |f: int| value(x.data[f]) * value(y.data[f]))
}

/// The batch dimensions of `part` are those of `whole`, or have length one.
pub open spec fn broadcasts(part: Seq<int>, whole: Seq<int>) -> bool {
    &&& part.len() == whole.len()
    &&& forall|k: int| 0 <= k < part.len() - 2 ==> (#[trigger] part[k] == whole[k] || part[k] == 1)
}

/// Which tensors can be multiplied, and the dimensions of their product: rows of the left factor,
/// columns of the right one, and the batch dimensions of both, where a length of one is repeated.
pub proof fn law_matmul_dims(lhs: Seq<int>, rhs: Seq<int>)
    ensures
        matmul_shapes(lhs, rhs) <==> (lhs.len() >= 2 && rhs.len() == lhs.len() && lhs[lhs.len() - 1]
            == rhs[rhs.len() - 2] && forall|k: int|
            0 <= k < lhs.len() - 2 ==> (#[trigger] lhs[k] == rhs[k] || lhs[k] == 1 || rhs[k] == 1)),
        matmul_shapes(lhs, rhs) ==> {
            let out: Seq<int> = matmul_shape(lhs, rhs);
            &&& out.len() == lhs.len()
            &&& out[lhs.len() - 2] == lhs[lhs.len() - 2]
            &&& out[lhs.len() - 1] == rhs[lhs.len() - 1]
            &&& forall|k: int|
                0 <= k < lhs.len() - 2 ==> {
                    &&& lhs[k] == rhs[k] ==> #[trigger] out[k] == lhs[k]
                    &&& lhs[k] == 1 ==> out[k] == rhs[k]
                    &&& rhs[k] == 1 ==> out[k] == lhs[k]
                }
        },
{
}

/// Transposing exchanges the two innermost dimensions and keeps the others.
pub proof fn law_transposed_dims(shape: Seq<int>)
    requires
        shape.len() >= 2,
    ensures
        transposed_shape(shape).len() == shape.len(),
        transposed_shape(shape)[shape.len() - 2] == shape[shape.len() - 1],
        transposed_shape(shape)[shape.len() - 1] == shape[shape.len() - 2],
        forall|k: int|
            0 <= k < shape.len() - 2 ==> #[trigger] transposed_shape(shape)[k] == shape[k],
{
}

/// The gradient of a product can be multiplied with both factors, whatever their dimensions.
pub proof fn law_grads_defined(lhs: Seq<int>, rhs: Seq<int>)
    requires
        matmul_shapes(lhs, rhs),
    ensures
        takes_lhs_grad(matmul_shape(lhs, rhs), rhs),
        takes_rhs_grad(matmul_shape(lhs, rhs), lhs),
{
    let rank: int = lhs.len() as int;
    let out: Seq<int> = matmul_shape(lhs, rhs);
    let l: Seq<int> = transposed_shape(lhs);
    let r: Seq<int> = transposed_shape(rhs);
    assert forall|k: int| 0 <= k < rank - 2 implies (#[trigger] out[k] == r[k] || out[k] == 1
        || r[k] == 1) by {
        assert(lhs[k] == rhs[k] || lhs[k] == 1 || rhs[k] == 1);
    }
    assert forall|k: int| 0 <= k < rank - 2 implies (#[trigger] l[k] == out[k] || l[k] == 1
        || out[k] == 1) by {
        assert(lhs[k] == rhs[k] || lhs[k] == 1 || rhs[k] == 1);
    }
}

/// What is recorded of a product can take the gradient of that product, whatever the dimensions of
/// its factors.
pub proof fn law_recorded_takes_grad<B: Backend>(
    lhs: Seq<int>,
    rhs: Seq<int>,
    operation: Operation<B>,
)
    requires
        matmul_shapes(lhs, rhs),
        match operation {
            Operation::QMatmulFloatLhs { parent, state } => B::q_view(state.q_rhs).shape == rhs,
            Operation::QMatmulFloatRhs { parent, state } => B::q_view(state.q_lhs).shape == lhs,
            Operation::Matmul { lhs: l, rhs: r, state } => {
                &&& l is Some <==> state.rhs is Some
                &&& r is Some <==> state.lhs is Some
                &&& state.lhs matches Some(t) ==> B::float_view(t).shape == lhs
                &&& state.rhs matches Some(t) ==> B::float_view(t).shape == rhs
                &&& as_dims(state.lhs_shape@) == lhs
                &&& as_dims(state.rhs_shape@) == rhs
            },
        },
    ensures
        operation.takes_grad(matmul_shape(lhs, rhs)),
{
    law_grads_defined(lhs, rhs);
    lemma_folds(lhs, rhs);
}

/// The products that give the gradients have batch dimensions that can be added up to those of the
/// factors.
pub proof fn lemma_folds(lhs: Seq<int>, rhs: Seq<int>)
    requires
        matmul_shapes(lhs, rhs),
    ensures
        folds_to(matmul_shape(matmul_shape(lhs, rhs), transposed_shape(rhs)), lhs),
        folds_to(matmul_shape(transposed_shape(lhs), matmul_shape(lhs, rhs)), rhs),
        folded_shape(
            lhs,
            lhs.len() - 2,
            matmul_shape(matmul_shape(lhs, rhs), transposed_shape(rhs)),
        ) == lhs,
        folded_shape(
            rhs,
            rhs.len() - 2,
            matmul_shape(transposed_shape(lhs), matmul_shape(lhs, rhs)),
        ) == rhs,
{
    let rank: int = lhs.len() as int;
    let out: Seq<int> = matmul_shape(lhs, rhs);
    let l: Seq<int> = matmul_shape(out, transposed_shape(rhs));
    let r: Seq<int> = matmul_shape(transposed_shape(lhs), out);
    assert forall|k: int| 0 <= k < rank - 2 implies (#[trigger] lhs[k] == l[k] || lhs[k] == 1) by {
        assert(lhs[k] == rhs[k] || lhs[k] == 1 || rhs[k] == 1);
    }
    assert forall|k: int| 0 <= k < rank - 2 implies (#[trigger] rhs[k] == r[k] || rhs[k] == 1) by {
        assert(lhs[k] == rhs[k] || lhs[k] == 1 || rhs[k] == 1);
    }
    assert(folded_shape(lhs, rank - 2, l) =~= lhs);
    assert(folded_shape(rhs, rank - 2, r) =~= rhs);
}

/// The gradient of the left factor has its dimensions, where the right factor is the one that is
/// repeated.
pub proof fn law_lhs_grad_shape<B: Backend>(
    lhs: Tensor<B::Elem>,
    rhs: Tensor<B::Elem>,
    grad: Tensor<B::Elem>,
    out: Tensor<B::Elem>,
)
    requires
        matmul_shapes(lhs.shape, rhs.shape),
        broadcasts(rhs.shape, lhs.shape),
        grad.shape == matmul_shape(lhs.shape, rhs.shape),
        is_lhs_grad::<B>(grad, rhs, out),
    ensures
        out.shape == lhs.shape,
{
    lemma_lhs_grad_shape(lhs.shape, rhs.shape);
}

/// The gradient of the right factor has its dimensions, where the left factor is the one that is
/// repeated.
pub proof fn law_rhs_grad_shape<B: Backend>(
    lhs: Tensor<B::Elem>,
    rhs: Tensor<B::Elem>,
    grad: Tensor<B::Elem>,
    out: Tensor<B::Elem>,
)
    requires
        matmul_shapes(lhs.shape, rhs.shape),
        broadcasts(lhs.shape, rhs.shape),
        grad.shape == matmul_shape(lhs.shape, rhs.shape),
        is_rhs_grad::<B>(grad, lhs, out),
    ensures
        out.shape == rhs.shape,
{
    lemma_rhs_grad_shape(lhs.shape, rhs.shape);
}

proof fn lemma_lhs_grad_shape(lhs: Seq<int>, rhs: Seq<int>)
    requires
        matmul_shapes(lhs, rhs),
        broadcasts(rhs, lhs),
    ensures
        matmul_shape(matmul_shape(lhs, rhs), transposed_shape(rhs)) == lhs,
        batch(matmul_shape(lhs, rhs)) == batch(lhs),
{
    let rank: int = lhs.len() as int;
    let grad: Seq<int> = matmul_shape(lhs, rhs);
    let out: Seq<int> = matmul_shape(grad, transposed_shape(rhs));
    assert forall|k: int| 0 <= k < rank implies out[k] == lhs[k] && (k < rank - 2 ==> grad[k]
        == lhs[k]) by {
        if k < rank - 2 {
            assert(rhs[k] == lhs[k] || rhs[k] == 1);
        }
    }
    assert(out =~= lhs);
    assert(batch(grad) =~= batch(lhs));
}

proof fn lemma_rhs_grad_shape(lhs: Seq<int>, rhs: Seq<int>)
    requires
        matmul_shapes(lhs, rhs),
        broadcasts(lhs, rhs),
    ensures
        matmul_shape(transposed_shape(lhs), matmul_shape(lhs, rhs)) == rhs,
        batch(matmul_shape(lhs, rhs)) == batch(rhs),
{
    let rank: int = lhs.len() as int;
    let grad: Seq<int> = matmul_shape(lhs, rhs);
    let out: Seq<int> = matmul_shape(transposed_shape(lhs), grad);
    assert forall|k: int| 0 <= k < rank implies out[k] == rhs[k] && (k < rank - 2 ==> grad[k]
        == rhs[k]) by {
        if k < rank - 2 {
            assert(lhs[k] == rhs[k] || lhs[k] == 1);
        }
    }
    assert(out =~= rhs);
    assert(batch(grad) =~= batch(rhs));
}

/// For a row `d` and a matrix `r`, with `x` the product of both: the inner product of `g` and `x`
/// is that of `d` and the product `y` of `g` and the transposed matrix.
proof fn lemma_row(
    n: int,
    k: int,
    g: spec_fn(int) -> real,
    d: spec_fn(int) -> real,
    r: spec_fn(int, int) -> real,
    x: spec_fn(int) -> real,
    y: spec_fn(int) -> real,
)
    requires
        forall|j: int| 0 <= j < n ==> #[trigger] x(j) == sum(k, |p: int| d(p) * r(p, j)),
        forall|p: int| 0 <= p < k ==> #[trigger] y(p) == sum(n, |j: int| g(j) * r(p, j)),
    ensures
        sum(n, |j: int| g(j) * x(j)) == sum(k, |p: int| y(p) * d(p)),
{
    let by_column: spec_fn(int, int) -> real = |j: int, p: int| g(j) * (d(p) * r(p, j));
    let by_row: spec_fn(int, int) -> real = |p: int, j: int| d(p) * (g(j) * r(p, j));
    let left: spec_fn(int) -> real = |j: int| g(j) * x(j);
    let right: spec_fn(int) -> real = |p: int| y(p) * d(p);
    assert forall|j: int| 0 <= j < n implies #[trigger] left(j) == sum(
        k,
        |p: int| by_column(j, p),
    ) by {
        assert(x(j) == sum(k, |p: int| d(p) * r(p, j)));
        lemma_sum_scale(k, g(j), |p: int| d(p) * r(p, j), |p: int| by_column(j, p));
    }
    assert forall|p: int| 0 <= p < k implies #[trigger] right(p) == sum(
        n,
        |j: int| by_row(p, j),
    ) by {
        assert(y(p) == sum(n, |j: int| g(j) * r(p, j)));
        lemma_sum_scale(n, d(p), |j: int| g(j) * r(p, j), |j: int| by_row(p, j));
        assert(y(p) * d(p) == d(p) * y(p)) by (nonlinear_arith);
    }
    lemma_sum_eq(n, left, |j: int| sum(k, |p: int| by_column(j, p)));
    lemma_sum_eq(k, right, |p: int| sum(n, |j: int| by_row(p, j)));
    assert forall|j: int, p: int| 0 <= j < n && 0 <= p < k implies by_column(j, p)
        == #[trigger] by_row(p, j) by {
        let u: real = g(j);
        let v: real = d(p);
        let w: real = r(p, j);
        assert(u * (v * w) == v * (u * w)) by (nonlinear_arith);
    }
    lemma_sum2_swap(n, k, by_column, by_row);
}

/// The elements of a tensor, matrix by matrix.
pub proof fn lemma_num_cells(shape: Seq<int>)
    requires
        shape.len() >= 2,
    ensures
        product(shape) == product(batch(shape)) * shape[shape.len() - 2] * shape[shape.len() - 1],
{
    let rank: int = shape.len() as int;
    lemma_product_take(shape, rank - 2);
    lemma_product_take(shape, rank - 1);
    assert(shape.take(rank) =~= shape);
}

/// The inner product of two tensors is the sum over the inner products of their matrices.
proof fn lemma_inner_product<E>(
    value: spec_fn(E) -> real,
    x: Tensor<E>,
    y: Tensor<E>,
    per_matrix: spec_fn(int) -> real,
)
    requires
        x.wf(),
        x.shape.len() >= 2,
        x.shape == y.shape,
        forall|b: int|
            0 <= b < product(batch(x.shape)) ==> #[trigger] per_matrix(b) == sum2(
                x.shape[x.shape.len() - 2],
                x.shape[x.shape.len() - 1],
                |i: int, j: int| value(cell(x, b, i, j)) * value(cell(y, b, i, j)),
            ),
    ensures
        inner_product(value, x, y) == sum(product(batch(x.shape)), per_matrix),
{
    let rank: int = x.shape.len() as int;
    let c: int = product(batch(x.shape));
    let m: int = x.shape[rank - 2];
    let n: int = x.shape[rank - 1];
    let f: spec_fn(int) -> real = |f: int| value(x.data[f]) * value(y.data[f]);
    let grid: spec_fn(int, int) -> real = |q: int, j: int| f(q * n + j);
    let row: spec_fn(int) -> real = |q: int| sum(n, |j: int| grid(q, j));
    let rows: spec_fn(int, int) -> real = |b: int, i: int| row(b * m + i);
    let by_matrix: spec_fn(int) -> real = |b: int| sum(m, |i: int| rows(b, i));
    lemma_batch_natural(x.shape);
    lemma_product_natural(batch(x.shape));
    lemma_num_cells(x.shape);
    assert(c * m >= 0) by (nonlinear_arith)
        requires
            c >= 0,
            m >= 0,
    ;
    lemma_sum_rows(c * m, n, f, grid);
    lemma_sum_rows(c, m, row, rows);
    assert forall|b: int| 0 <= b < c implies #[trigger] by_matrix(b) == per_matrix(b) by {
        let cells: spec_fn(int, int) -> real =
            |i: int, j: int| value(cell(x, b, i, j)) * value(cell(y, b, i, j));
        let left: spec_fn(int) -> real = |i: int| rows(b, i);
        let right: spec_fn(int) -> real = |i: int| sum(n, |j: int| cells(i, j));
        assert forall|i: int| 0 <= i < m implies #[trigger] left(i) == right(i) by {
            lemma_sum_eq(n, |j: int| grid(b * m + i, j), |j: int| cells(i, j));
        }
        lemma_sum_eq(m, left, right);
    }
    lemma_sum_eq(c, by_matrix, per_matrix);
}

/// A position among the matrices of a tensor, split at the outermost dimension.
pub proof fn lemma_batch_split(out: Seq<int>, b: int)
    requires
        out.len() > 0,
        all_natural(out),
        0 <= b < product(out),
    ensures
        all_natural(out.skip(1)),
        product(out.skip(1)) > 0,
        0 <= b / product(out.skip(1)) < out[0],
        0 <= b % product(out.skip(1)) < product(out.skip(1)),
        b == (b / product(out.skip(1))) * product(out.skip(1)) + b % product(out.skip(1)),
{
    let tail: Seq<int> = out.skip(1);
    let inner: int = product(tail);
    assert forall|k: int| 0 <= k < tail.len() implies #[trigger] tail[k] >= 0 by {
        assert(tail[k] == out[k + 1]);
    }
    lemma_product_natural(tail);
    assert(inner > 0) by (nonlinear_arith)
        requires
            inner >= 0,
            0 <= b < out[0] * inner,
    ;
    vstd::arithmetic::div_mod::lemma_fundamental_div_mod(b, inner);
    vstd::arithmetic::div_mod::lemma_mod_bound(b, inner);
    let q: int = b / inner;
    let r: int = b % inner;
    assert(0 <= q < out[0] && b == q * inner + r) by (nonlinear_arith)
        requires
            b == inner * q + r,
            0 <= r < inner,
            0 <= b < out[0] * inner,
    ;
}

/// Where nothing is repeated, each matrix takes part in its own product.
pub proof fn lemma_batch_same(out: Seq<int>, b: int)
    requires
        all_natural(out),
        0 <= b < product(out),
    ensures
        batch_in(out, out, b) == b,
    decreases out.len(),
{
    if out.len() > 0 {
        lemma_batch_split(out, b);
        lemma_batch_same(out.skip(1), b % product(out.skip(1)));
    }
}

/// The matrix that takes part is one of the matrices.
proof fn lemma_batch_bound(dims: Seq<int>, out: Seq<int>, b: int)
    requires
        dims.len() == out.len(),
        forall|k: int| 0 <= k < dims.len() ==> (#[trigger] dims[k] == out[k] || dims[k] == 1),
        all_natural(out),
        0 <= b < product(out),
    ensures
        0 <= batch_in(dims, out, b) < product(dims),
    decreases out.len(),
{
    if out.len() > 0 {
        lemma_batch_split(out, b);
        let inner: int = product(out.skip(1));
        let d: Seq<int> = dims.skip(1);
        let o: Seq<int> = out.skip(1);
        assert forall|k: int| 0 <= k < d.len() implies (#[trigger] d[k] == o[k] || d[k] == 1) by {
            assert(d[k] == dims[k + 1]);
            assert(o[k] == out[k + 1]);
        }
        lemma_batch_bound(d, o, b % inner);
        let first: int = if dims[0] == 1 {
            0
        } else {
            b / inner
        };
        let rest: int = batch_in(d, o, b % inner);
        assert(dims[0] == out[0] || dims[0] == 1);
        assert(0 <= first < dims[0]);
        assert(0 <= first * product(d) + rest < dims[0] * product(d)) by (nonlinear_arith)
            requires
                0 <= first < dims[0],
                0 <= rest < product(d),
        ;
    }
}

/// Transposing exchanges rows and columns of each matrix.
pub proof fn law_transposed<E>(t: Tensor<E>, b: int, i: int, j: int)
    requires
        t.wf(),
        t.shape.len() >= 2,
        0 <= b < product(batch(t.shape)),
        0 <= i < t.shape[t.shape.len() - 2],
        0 <= j < t.shape[t.shape.len() - 1],
    ensures
        t.transposed().shape == transposed_shape(t.shape),
        cell(t.transposed(), b, j, i) == cell(t, b, i, j),
{
    let rank: int = t.shape.len() as int;
    let m: int = t.shape[rank - 2];
    let n: int = t.shape[rank - 1];
    let c: int = product(batch(t.shape));
    let f: int = (b * n + j) * m + i;
    lemma_num_cells(t.shape);
    assert(0 <= f < c * m * n) by (nonlinear_arith)
        requires
            f == (b * n + j) * m + i,
            0 <= b < c,
            0 <= i < m,
            0 <= j < n,
    ;
    let mn: int = m * n;
    let low: int = j * m + i;
    assert(f == mn * b + low && 0 <= low < mn) by (nonlinear_arith)
        requires
            f == (b * n + j) * m + i,
            mn == m * n,
            low == j * m + i,
            0 <= i < m,
            0 <= j < n,
    ;
    vstd::arithmetic::div_mod::lemma_fundamental_div_mod_converse(f, mn, b, low);
    vstd::arithmetic::div_mod::lemma_fundamental_div_mod_converse(f, m, b * n + j, i);
    assert(low == m * j + i) by (nonlinear_arith)
        requires
            low == j * m + i,
    ;
    vstd::arithmetic::div_mod::lemma_fundamental_div_mod_converse(low, m, j, i);
    assert(b * mn + i * n + j == (b * m + i) * n + j) by (nonlinear_arith)
        requires
            mn == m * n,
    ;
}

/// Without rounding, what comes back for the left factor is the gradient: for every change of the
/// left factor, its inner product with the change is that of the gradient of the product with the
/// change of the product.
pub proof fn law_lhs_grad<E>(
    value: spec_fn(E) -> real,
    change: Tensor<E>,
    rhs: Tensor<E>,
    effect: Tensor<E>,
    grad: Tensor<E>,
    out: Tensor<E>,
)
    requires
        change.wf(),
        rhs.wf(),
        grad.wf(),
        out.wf(),
        matmul_shapes(change.shape, rhs.shape),
        broadcasts(rhs.shape, change.shape),
        is_exact_product(value, change, rhs, effect),
        grad.shape == effect.shape,
        is_exact_product(value, grad, rhs.transposed(), out),
    ensures
        inner_product(value, grad, effect) == inner_product(value, out, change),
{
    let rank: int = change.shape.len() as int;
    let m: int = change.shape[rank - 2];
    let k: int = change.shape[rank - 1];
    let n: int = rhs.shape[rank - 1];
    let rhs_t: Tensor<E> = rhs.transposed();
    lemma_lhs_grad_shape(change.shape, rhs.shape);
    let batches: Seq<int> = batch(change.shape);
    assert(out.shape == change.shape);
    assert(batch(rhs_t.shape) =~= batch(rhs.shape));
    lemma_batch_natural(change.shape);
    let grad_side: spec_fn(int) -> real = |b: int|
        sum2(m, n, |i: int, j: int| value(cell(grad, b, i, j)) * value(cell(effect, b, i, j)));
    let out_side: spec_fn(int) -> real = |b: int|
        sum2(m, k, |i: int, p: int| value(cell(out, b, i, p)) * value(cell(change, b, i, p)));
    assert forall|b: int| 0 <= b < product(batches) implies #[trigger] grad_side(b) == out_side(
        b,
    ) by {
        let rb: int = batch_in(batch(rhs.shape), batches, b);
        lemma_batch_same(batches, b);
        assert forall|q: int| 0 <= q < rank - 2 implies (#[trigger] batch(rhs.shape)[q]
            == batches[q] || batch(rhs.shape)[q] == 1) by {
            assert(rhs.shape[q] == change.shape[q] || rhs.shape[q] == 1);
        }
        lemma_batch_bound(batch(rhs.shape), batches, b);
        let grad_cells: spec_fn(int, int) -> real = |i: int, j: int|
            value(cell(grad, b, i, j)) * value(cell(effect, b, i, j));
        let out_cells: spec_fn(int, int) -> real = |i: int, p: int|
            value(cell(out, b, i, p)) * value(cell(change, b, i, p));
        let gx: spec_fn(int) -> real = |i: int| sum(n, |j: int| grad_cells(i, j));
        let yd: spec_fn(int) -> real = |i: int| sum(k, |p: int| out_cells(i, p));
        assert forall|i: int| 0 <= i < m implies #[trigger] gx(i) == yd(i) by {
            let g: spec_fn(int) -> real = |j: int| value(cell(grad, b, i, j));
            let d: spec_fn(int) -> real = |p: int| value(cell(change, b, i, p));
            let r: spec_fn(int, int) -> real = |p: int, j: int| value(cell(rhs, rb, p, j));
            let x: spec_fn(int) -> real = |j: int| value(cell(effect, b, i, j));
            let y: spec_fn(int) -> real = |p: int| value(cell(out, b, i, p));
            assert forall|j: int| 0 <= j < n implies #[trigger] x(j) == sum(
                k,
                |p: int| d(p) * r(p, j),
            ) by {
                assert(value(cell(effect, b, i, j)) == sum(
                    k,
                    |p: int| value(cell(change, b, i, p)) * value(cell(rhs, rb, p, j)),
                ));
                lemma_sum_eq(
                    k,
                    |p: int| value(cell(change, b, i, p)) * value(cell(rhs, rb, p, j)),
                    |p: int| d(p) * r(p, j),
                );
            }
            assert forall|p: int| 0 <= p < k implies #[trigger] y(p) == sum(
                n,
                |j: int| g(j) * r(p, j),
            ) by {
                let terms: spec_fn(int) -> real = |j: int|
                    value(cell(grad, b, i, j)) * value(cell(rhs_t, rb, j, p));
                assert(value(cell(out, b, i, p)) == sum(n, terms));
                assert forall|j: int| 0 <= j < n implies #[trigger] terms(j) == g(j) * r(p, j) by {
                    law_transposed(rhs, rb, p, j);
                }
                lemma_sum_eq(n, terms, |j: int| g(j) * r(p, j));
            }
            lemma_row(n, k, g, d, r, x, y);
            lemma_sum_eq(n, |j: int| grad_cells(i, j), |j: int| g(j) * x(j));
            lemma_sum_eq(k, |p: int| out_cells(i, p), |p: int| y(p) * d(p));
        }
        lemma_sum_eq(m, gx, yd);
    }
    lemma_sum_eq(product(batches), grad_side, out_side);
    lemma_inner_product(value, grad, effect, grad_side);
    lemma_inner_product(value, out, change, out_side);
}

/// Without rounding, what comes back for the right factor is the gradient: for every change of the
/// right factor, its inner product with the change is that of the gradient of the product with the
/// change of the product.
pub proof fn law_rhs_grad<E>(
    value: spec_fn(E) -> real,
    lhs: Tensor<E>,
    change: Tensor<E>,
    effect: Tensor<E>,
    grad: Tensor<E>,
    out: Tensor<E>,
)
    requires
        lhs.wf(),
        change.wf(),
        grad.wf(),
        out.wf(),
        matmul_shapes(lhs.shape, change.shape),
        broadcasts(lhs.shape, change.shape),
        is_exact_product(value, lhs, change, effect),
        grad.shape == effect.shape,
        is_exact_product(value, lhs.transposed(), grad, out),
    ensures
        inner_product(value, grad, effect) == inner_product(value, out, change),
{
    let rank: int = change.shape.len() as int;
    let m: int = lhs.shape[rank - 2];
    let k: int = lhs.shape[rank - 1];
    let n: int = change.shape[rank - 1];
    let lhs_t: Tensor<E> = lhs.transposed();
    lemma_rhs_grad_shape(lhs.shape, change.shape);
    let batches: Seq<int> = batch(change.shape);
    assert(out.shape == change.shape);
    assert(batch(lhs_t.shape) =~= batch(lhs.shape));
    lemma_batch_natural(change.shape);
    let grad_side: spec_fn(int) -> real = |b: int|
        sum2(m, n, |i: int, j: int| value(cell(grad, b, i, j)) * value(cell(effect, b, i, j)));
    let out_side: spec_fn(int) -> real = |b: int|
        sum2(k, n, |p: int, j: int| value(cell(out, b, p, j)) * value(cell(change, b, p, j)));
    assert forall|b: int| 0 <= b < product(batches) implies #[trigger] grad_side(b) == out_side(
        b,
    ) by {
        let lb: int = batch_in(batch(lhs.shape), batches, b);
        lemma_batch_same(batches, b);
        assert forall|q: int| 0 <= q < rank - 2 implies (#[trigger] batch(lhs.shape)[q]
            == batches[q] || batch(lhs.shape)[q] == 1) by {
            assert(lhs.shape[q] == change.shape[q] || lhs.shape[q] == 1);
        }
        lemma_batch_bound(batch(lhs.shape), batches, b);
        let grad_cells: spec_fn(int, int) -> real = |i: int, j: int|
            value(cell(grad, b, i, j)) * value(cell(effect, b, i, j));
        let out_cells: spec_fn(int, int) -> real = |p: int, j: int|
            value(cell(out, b, p, j)) * value(cell(change, b, p, j));
        let grad_columns: spec_fn(int, int) -> real = |j: int, i: int| grad_cells(i, j);
        let out_columns: spec_fn(int, int) -> real = |j: int, p: int| out_cells(p, j);
        lemma_sum2_swap(m, n, grad_cells, grad_columns);
        lemma_sum2_swap(k, n, out_cells, out_columns);
        let gx: spec_fn(int) -> real = |j: int| sum(m, |i: int| grad_columns(j, i));
        let yd: spec_fn(int) -> real = |j: int| sum(k, |p: int| out_columns(j, p));
        assert forall|j: int| 0 <= j < n implies #[trigger] gx(j) == yd(j) by {
            let g: spec_fn(int) -> real = |i: int| value(cell(grad, b, i, j));
            let d: spec_fn(int) -> real = |p: int| value(cell(change, b, p, j));
            let r: spec_fn(int, int) -> real = |p: int, i: int| value(cell(lhs, lb, i, p));
            let x: spec_fn(int) -> real = |i: int| value(cell(effect, b, i, j));
            let y: spec_fn(int) -> real = |p: int| value(cell(out, b, p, j));
            assert forall|i: int| 0 <= i < m implies #[trigger] x(i) == sum(
                k,
                |p: int| d(p) * r(p, i),
            ) by {
                let terms: spec_fn(int) -> real = |p: int|
                    value(cell(lhs, lb, i, p)) * value(cell(change, b, p, j));
                assert(value(cell(effect, b, i, j)) == sum(k, terms));
                assert forall|p: int| 0 <= p < k implies #[trigger] terms(p) == d(p) * r(p, i) by {
                    let u: real = r(p, i);
                    let v: real = d(p);
                    assert(u * v == v * u) by (nonlinear_arith);
                }
                lemma_sum_eq(k, terms, |p: int| d(p) * r(p, i));
            }
            assert forall|p: int| 0 <= p < k implies #[trigger] y(p) == sum(
                m,
                |i: int| g(i) * r(p, i),
            ) by {
                let terms: spec_fn(int) -> real = |i: int|
                    value(cell(lhs_t, lb, p, i)) * value(cell(grad, b, i, j));
                assert(value(cell(out, b, p, j)) == sum(m, terms));
                assert forall|i: int| 0 <= i < m implies #[trigger] terms(i) == g(i) * r(p, i) by {
                    law_transposed(lhs, lb, i, p);
                    let u: real = r(p, i);
                    let v: real = g(i);
                    assert(u * v == v * u) by (nonlinear_arith);
                }
                lemma_sum_eq(m, terms, |i: int| g(i) * r(p, i));
            }
            lemma_row(m, k, g, d, r, x, y);
            lemma_sum_eq(m, |i: int| grad_columns(j, i), |i: int| g(i) * x(i));
            lemma_sum_eq(k, |p: int| out_columns(j, p), |p: int| y(p) * d(p));
        }
        lemma_sum_eq(n, gx, yd);
    }
    lemma_sum_eq(product(batches), grad_side, out_side);
    lemma_inner_product(value, grad, effect, grad_side);
    lemma_inner_product(value, out, change, out_side);
}

/// No batch dimension is negative.
pub proof fn lemma_batch_natural(shape: Seq<int>)
    requires
        all_natural(shape),
        shape.len() >= 2,
    ensures
        all_natural(batch(shape)),
{
    assert forall|k: int| 0 <= k < batch(shape).len() implies #[trigger] batch(shape)[k] >= 0 by {
        assert(batch(shape)[k] == shape[k]);
    }
}

} // verus!
