//! Gradients of factors that were repeated.
use vstd::prelude::*;

use crate::autodiff::{
    folded_shape, folds_to, is_fold_step, is_folded, is_folded_lhs_grad, is_folded_rhs_grad,
    is_lhs_grad, is_rhs_grad,
};
use crate::backend::{sums, Backend};
use crate::gradient::{
    batch, batch_in, broadcasts, cell, inner_product, is_exact_product, law_lhs_grad, law_rhs_grad,
    lemma_batch_natural, lemma_batch_same, lemma_batch_split, lemma_folds, lemma_num_cells,
};
use crate::shape::{all_natural, lemma_product_natural, product};
use crate::sums::{lemma_sum2_swap, lemma_sum_eq, lemma_sum_rows, lemma_sum_scale, sum};
use crate::tensor::{is_sum_along, lemma_reduced_product, matmul_shape, matmul_shapes, Tensor};

verus! {

/// Sums without rounding, where `value` gives the number that an element stands for.
pub open spec fn exact_sums<E>(value: spec_fn(E) -> real) -> spec_fn(Seq<E>, E) -> bool {
    |terms: Seq<E>, x: E| value(x) == sum(terms.len() as int, |j: int| value(terms[j]))
}

/// The tensor with its dimensions of length one repeated up to `shape`.
pub open spec fn spread<E>(t: Tensor<E>, shape: Seq<int>) -> Tensor<E> {
    Tensor {
        shape,
        data: Seq::new(
            product(shape) as nat,
            |f: int| t.data[batch_in(t.shape, shape, f)],
        ),
    }
}

/// A tensor whose first dimensions were added up has the dimensions that were asked for.
proof fn lemma_folded_shape<E>(
    adds: spec_fn(Seq<E>, E) -> bool,
    dims: Seq<int>,
    n: int,
    t: Tensor<E>,
    out: Tensor<E>,
)
    requires
        folds_to(t.shape, dims),
        0 <= n <= dims.len() - 2,
        is_folded(adds, dims, n, t, out),
    ensures
        out.shape == folded_shape(dims, n, t.shape),
    decreases n,
{
    if n == 0 {
        assert(folded_shape(dims, 0, t.shape) =~= t.shape);
    } else {
        let mid: Tensor<E> = choose|mid: Tensor<E>|
            is_folded(adds, dims, n - 1, t, mid) && #[trigger] is_fold_step(
                adds,
                dims,
                n - 1,
                mid,
                out,
            );
        lemma_folded_shape(adds, dims, n - 1, t, mid);
        assert(dims[n - 1] == t.shape[n - 1] || dims[n - 1] == 1);
        assert(out.shape =~= folded_shape(dims, n, t.shape));
    }
}

/// The gradients of the factors of a product of float tensors have their dimensions, whichever of
/// them was repeated.
pub proof fn law_matmul_grad_shapes<B: Backend>(
    lhs: Tensor<B::Elem>,
    rhs: Tensor<B::Elem>,
    grad: Tensor<B::Elem>,
    lhs_grad: Tensor<B::Elem>,
    rhs_grad: Tensor<B::Elem>,
)
    requires
        matmul_shapes(lhs.shape, rhs.shape),
        grad.shape == matmul_shape(lhs.shape, rhs.shape),
        is_folded_lhs_grad::<B>(grad, rhs, lhs.shape, lhs_grad),
        is_folded_rhs_grad::<B>(grad, lhs, rhs.shape, rhs_grad),
    ensures
        lhs_grad.shape == lhs.shape,
        rhs_grad.shape == rhs.shape,
{
    let n: int = lhs.shape.len() - 2;
    lemma_folds(lhs.shape, rhs.shape);
    let l: Tensor<B::Elem> = choose|full: Tensor<B::Elem>| #[trigger]
        is_lhs_grad::<B>(grad, rhs, full) && full.wf() && is_folded(
            sums::<B>(),
            lhs.shape,
            n,
            full,
            lhs_grad,
        );
    lemma_folded_shape(sums::<B>(), lhs.shape, n, l, lhs_grad);
    let r: Tensor<B::Elem> = choose|full: Tensor<B::Elem>| #[trigger]
        is_rhs_grad::<B>(grad, lhs, full) && full.wf() && is_folded(
            sums::<B>(),
            rhs.shape,
            n,
            full,
            rhs_grad,
        );
    lemma_folded_shape(sums::<B>(), rhs.shape, n, r, rhs_grad);
}

/// A position, split at the outermost dimension.
proof fn lemma_first(inner: int, first: int, rest: int)
    requires
        0 <= rest < inner,
    ensures
        (first * inner + rest) / inner == first,
        (first * inner + rest) % inner == rest,
{
    assert(first * inner + rest == inner * first + rest) by (nonlinear_arith);
    vstd::arithmetic::div_mod::lemma_fundamental_div_mod_converse(
        first * inner + rest,
        inner,
        first,
        rest,
    );
}

/// The dimensions before `k` and those after it count no fewer than zero elements.
proof fn lemma_natural_parts(shape: Seq<int>, k: int)
    requires
        all_natural(shape),
        0 <= k < shape.len(),
    ensures
        product(shape.take(k)) >= 0,
        product(shape.skip(k + 1)) >= 0,
{
    let before: Seq<int> = shape.take(k);
    let after: Seq<int> = shape.skip(k + 1);
    assert forall|h: int| 0 <= h < before.len() implies #[trigger] before[h] >= 0 by {
        assert(before[h] == shape[h]);
    }
    assert forall|h: int| 0 <= h < after.len() implies #[trigger] after[h] >= 0 by {
        assert(after[h] == shape[h + k + 1]);
    }
    lemma_product_natural(before);
    lemma_product_natural(after);
}

proof fn lemma_mul_assoc(a: int, b: int, c: int)
    ensures
        (a * b) * c == a * (b * c),
{
    assert((a * b) * c == a * (b * c)) by (nonlinear_arith);
}

/// A place in a table of tables.
proof fn lemma_rows_of_rows(table: int, rows: int, width: int, row: int)
    ensures
        (table * rows + row) * width == table * (rows * width) + row * width,
{
    let x: int = table * rows;
    assert((x + row) * width == x * width + row * width) by (nonlinear_arith);
    lemma_mul_assoc(table, rows, width);
}

/// A place in a row of a table lies in the table.
proof fn lemma_within_rows(row: int, rows: int, width: int, place: int)
    requires
        0 <= row < rows,
        0 <= place < width,
    ensures
        0 <= row * width + place < rows * width,
{
    assert(0 <= row * width + place < rows * width) by (nonlinear_arith)
        requires
            0 <= row < rows,
            0 <= place < width,
    ;
}

/// Where a dimension is repeated, its coordinate does not matter: position `(o, j, i)` reads what
/// `(o, i)` reads once the dimension `k` was reduced.
proof fn lemma_position(dims: Seq<int>, shape: Seq<int>, k: int, o: int, j: int, i: int)
    requires
        dims.len() == shape.len(),
        all_natural(shape),
        0 <= k < shape.len(),
        dims[k] == 1,
        0 <= o < product(shape.take(k)),
        0 <= j < shape[k],
        0 <= i < product(shape.skip(k + 1)),
    ensures
        batch_in(dims, shape, (o * shape[k] + j) * product(shape.skip(k + 1)) + i) == batch_in(
            dims,
            shape.update(k, 1),
            o * product(shape.skip(k + 1)) + i,
        ),
    decreases k,
{
    let n: int = shape[k];
    let st: int = product(shape.skip(k + 1));
    let reduced: Seq<int> = shape.update(k, 1);
    let d1: Seq<int> = dims.skip(1);
    let s1: Seq<int> = shape.skip(1);
    if k == 0 {
        assert(shape.take(0) =~= Seq::<int>::empty());
        assert(o == 0);
        assert(reduced.skip(1) =~= s1);
        assert((o * n + j) * st + i == j * st + i && o * st + i == 0 * st + i) by (nonlinear_arith)
            requires
                o == 0,
        ;
        lemma_first(st, j, i);
        lemma_first(st, 0, i);
    } else {
        assert forall|h: int| 0 <= h < s1.len() implies #[trigger] s1[h] >= 0 by {
            assert(s1[h] == shape[h + 1]);
        }
        let outer: int = product(s1.take(k - 1));
        assert(shape.take(k).skip(1) =~= s1.take(k - 1));
        assert(product(shape.take(k)) == shape[0] * outer);
        assert(s1.skip(k) =~= shape.skip(k + 1));
        assert(reduced.skip(1) =~= s1.update(k - 1, 1));
        assert(s1.update(k - 1, 1).skip(k) =~= shape.skip(k + 1));
        assert(s1.update(k - 1, 1).take(k - 1) =~= s1.take(k - 1));
        lemma_reduced_product(s1, k - 1, s1.update(k - 1, 1));
        let inner: int = product(s1);
        let short: int = product(reduced.skip(1));
        assert(inner == outer * (n * st));
        assert(short == outer * st);
        lemma_natural_parts(s1, k - 1);
        assert(outer > 0) by (nonlinear_arith)
            requires
                outer >= 0,
                0 <= o < shape[0] * outer,
        ;
        let a: int = o / outer;
        let c: int = o % outer;
        vstd::arithmetic::div_mod::lemma_fundamental_div_mod(o, outer);
        vstd::arithmetic::div_mod::lemma_mod_bound(o, outer);
        let f: int = (o * n + j) * st + i;
        let g: int = o * st + i;
        let f1: int = (c * n + j) * st + i;
        let g1: int = c * st + i;
        let x: int = a * outer;
        assert(o == x + c) by (nonlinear_arith)
            requires
                o == outer * a + c,
                x == a * outer,
        ;
        assert(o * n == x * n + c * n) by (nonlinear_arith)
            requires
                o == x + c,
        ;
        let y: int = x * n;
        let z: int = c * n + j;
        assert((y + z) * st == y * st + z * st) by (nonlinear_arith);
        assert(y * st == x * (n * st)) by (nonlinear_arith)
            requires
                y == x * n,
        ;
        lemma_mul_assoc(a, outer, n * st);
        assert(f == a * inner + f1);
        assert(o * st == x * st + c * st) by (nonlinear_arith)
            requires
                o == x + c,
        ;
        lemma_mul_assoc(a, outer, st);
        assert(g == a * short + g1);
        lemma_within_rows(c, outer, n, j);
        lemma_within_rows(z, outer * n, st, i);
        lemma_mul_assoc(outer, n, st);
        assert(0 <= f1 < inner);
        lemma_within_rows(c, outer, st, i);
        assert(0 <= g1 < short);
        lemma_first(inner, a, f1);
        lemma_first(short, a, g1);
        lemma_position(d1, s1, k - 1, c, j, i);
    }
}

/// Adding up a dimension for which `change` was repeated keeps the inner product with it.
proof fn lemma_fold_inner<E>(
    value: spec_fn(E) -> real,
    change: Tensor<E>,
    t: Tensor<E>,
    k: int,
    out: Tensor<E>,
)
    requires
        t.wf(),
        out.wf(),
        change.shape.len() == t.shape.len(),
        0 <= k < t.shape.len(),
        change.shape[k] == 1,
        out.shape == t.shape.update(k, 1),
        is_sum_along(exact_sums(value), t, k, out),
    ensures
        inner_product(value, t, spread(change, t.shape)) == inner_product(
            value,
            out,
            spread(change, out.shape),
        ),
{
    let n: int = t.shape[k];
    let outer: int = product(t.shape.take(k));
    let st: int = product(t.shape.skip(k + 1));
    lemma_natural_parts(t.shape, k);
    lemma_reduced_product(t.shape, k, out.shape);
    assert(n >= 0);
    assert(n * st >= 0) by (nonlinear_arith)
        requires
            n >= 0,
            st >= 0,
    ;
    let c: Tensor<E> = spread(change, t.shape);
    let d: Tensor<E> = spread(change, out.shape);
    let f: spec_fn(int) -> real = |f: int| value(t.data[f]) * value(c.data[f]);
    let g: spec_fn(int) -> real = |f: int| value(out.data[f]) * value(d.data[f]);
    let f_rows: spec_fn(int, int) -> real = |o: int, r: int| f(o * (n * st) + r);
    let g_rows: spec_fn(int, int) -> real = |o: int, i: int| g(o * st + i);
    lemma_sum_rows(outer, n * st, f, f_rows);
    lemma_sum_rows(outer, st, g, g_rows);
    let f_row: spec_fn(int) -> real = |o: int| sum(n * st, |r: int| f_rows(o, r));
    let g_row: spec_fn(int) -> real = |o: int| sum(st, |i: int| g_rows(o, i));
    assert forall|o: int| 0 <= o < outer implies #[trigger] f_row(o) == g_row(o) by {
        let by_place: spec_fn(int, int) -> real = |j: int, i: int| f_rows(o, j * st + i);
        let by_element: spec_fn(int, int) -> real = |i: int, j: int| by_place(j, i);
        lemma_sum_rows(n, st, |r: int| f_rows(o, r), by_place);
        lemma_sum2_swap(n, st, by_place, by_element);
        let added: spec_fn(int) -> real = |i: int| sum(n, |j: int| by_element(i, j));
        let row: spec_fn(int) -> real = |i: int| g_rows(o, i);
        assert forall|i: int| 0 <= i < st implies #[trigger] added(i) == row(i) by {
            let h: int = o * st + i;
            let fibre: Seq<E> = t.fibre(k, o, i);
            let terms: spec_fn(int) -> real = |j: int| value(fibre[j]);
            let x: real = value(d.data[h]);
            assert(0 <= h < outer * st) by (nonlinear_arith)
                requires
                    h == o * st + i,
                    0 <= o < outer,
                    0 <= i < st,
            ;
            assert(exact_sums(value)(fibre, out.data[h]));
            assert(value(out.data[h]) == sum(n, terms));
            assert forall|j: int| 0 <= j < n implies #[trigger] by_element(i, j) == x * terms(
                j,
            ) by {
                let p: int = (o * n + j) * st + i;
                lemma_rows_of_rows(o, n, st, j);
                lemma_mul_assoc(outer, n, st);
                lemma_within_rows(o, outer, n, j);
                lemma_within_rows(o * n + j, outer * n, st, i);
                lemma_position(change.shape, t.shape, k, o, j, i);
                assert(c.data[p] == d.data[h]);
                let y: real = value(t.data[p]);
                assert(y * x == x * y) by (nonlinear_arith);
            }
            lemma_sum_scale(n, x, terms, |j: int| by_element(i, j));
            let y: real = value(out.data[h]);
            assert(x * y == y * x) by (nonlinear_arith);
        }
        lemma_sum_eq(st, added, row);
    }
    lemma_sum_eq(outer, f_row, g_row);
}

/// Adding up all dimensions for which `change` was repeated keeps the inner product with it.
proof fn lemma_folded_inner<E>(
    value: spec_fn(E) -> real,
    change: Tensor<E>,
    n: int,
    t: Tensor<E>,
    out: Tensor<E>,
)
    requires
        t.wf(),
        folds_to(t.shape, change.shape),
        0 <= n <= change.shape.len() - 2,
        is_folded(exact_sums(value), change.shape, n, t, out),
    ensures
        out.wf(),
        inner_product(value, t, spread(change, t.shape)) == inner_product(
            value,
            out,
            spread(change, out.shape),
        ),
    decreases n,
{
    if n > 0 {
        let adds: spec_fn(Seq<E>, E) -> bool = exact_sums(value);
        let mid: Tensor<E> = choose|mid: Tensor<E>|
            is_folded(adds, change.shape, n - 1, t, mid) && #[trigger] is_fold_step(
                adds,
                change.shape,
                n - 1,
                mid,
                out,
            );
        lemma_folded_inner(value, change, n - 1, t, mid);
        lemma_folded_shape(adds, change.shape, n - 1, t, mid);
        if change.shape[n - 1] == 1 && mid.shape[n - 1] != 1 {
            lemma_fold_inner(value, change, mid, n - 1, out);
        }
    }
}

/// Repeating matrices keeps what is inside them.
proof fn lemma_spread_cell(dims: Seq<int>, shape: Seq<int>, b: int, i: int, j: int)
    requires
        dims.len() == shape.len(),
        shape.len() >= 2,
        all_natural(shape),
        dims[dims.len() - 2] == shape[shape.len() - 2],
        dims[dims.len() - 1] == shape[shape.len() - 1],
        0 <= b < product(batch(shape)),
        0 <= i < shape[shape.len() - 2],
        0 <= j < shape[shape.len() - 1],
    ensures
        batch_in(dims, shape, (b * shape[shape.len() - 2] + i) * shape[shape.len() - 1] + j) == (
        batch_in(batch(dims), batch(shape), b) * shape[shape.len() - 2] + i) * shape[shape.len()
            - 1] + j,
    decreases shape.len(),
{
    let rank: int = shape.len() as int;
    let m: int = shape[rank - 2];
    let n: int = shape[rank - 1];
    let f: int = (b * m + i) * n + j;
    if rank == 2 {
        assert(batch(shape) =~= Seq::<int>::empty());
        assert(batch(dims) =~= Seq::<int>::empty());
        assert(b == 0);
        assert(dims =~= shape);
        lemma_num_cells(shape);
        assert(0 <= f < 1 * m * n && f == (0 * m + i) * n + j) by (nonlinear_arith)
            requires
                f == (b * m + i) * n + j,
                b == 0,
                0 <= i < m,
                0 <= j < n,
        ;
        lemma_batch_same(shape, f);
    } else {
        let d1: Seq<int> = dims.skip(1);
        let s1: Seq<int> = shape.skip(1);
        lemma_batch_natural(shape);
        assert(batch(shape).skip(1) =~= batch(s1));
        assert(batch(dims).skip(1) =~= batch(d1));
        lemma_batch_split(batch(shape), b);
        assert forall|h: int| 0 <= h < s1.len() implies #[trigger] s1[h] >= 0 by {
            assert(s1[h] == shape[h + 1]);
        }
        let c: int = product(batch(s1));
        let b0: int = b / c;
        let b1: int = b % c;
        lemma_spread_cell(d1, s1, b1, i, j);
        lemma_num_cells(s1);
        lemma_num_cells(d1);
        let f1: int = (b1 * m + i) * n + j;
        lemma_rows_of_rows(b0, c, m, b1);
        lemma_rows_of_rows(b0, c * m, n, b1 * m + i);
        assert(f == b0 * (c * m * n) + f1);
        lemma_within_rows(b1, c, m, i);
        lemma_within_rows(b1 * m + i, c * m, n, j);
        assert(0 <= f1 < c * m * n);
        lemma_first(c * m * n, b0, f1);
        let first: int = if dims[0] == 1 {
            0
        } else {
            b0
        };
        let cd: int = product(batch(d1));
        let rest: int = batch_in(batch(d1), batch(s1), b1);
        assert(batch(dims)[0] == dims[0]);
        assert(batch_in(batch(dims), batch(shape), b) == first * cd + rest);
        assert(batch_in(dims, shape, f) == first * (cd * m * n) + ((rest * m + i) * n + j));
        lemma_rows_of_rows(first, cd, m, rest);
        lemma_rows_of_rows(first, cd * m, n, rest * m + i);
    }
}

/// Without repetition, a tensor stays as it is.
proof fn lemma_spread_same<E>(t: Tensor<E>)
    requires
        t.wf(),
    ensures
        spread(t, t.shape) == t,
{
    assert forall|f: int| 0 <= f < t.data.len() implies spread(t, t.shape).data[f]
        == t.data[f] by {
        lemma_batch_same(t.shape, f);
    }
    assert(spread(t, t.shape).data =~= t.data);
}

/// The elements of a repeated tensor, matrix by matrix.
proof fn lemma_spread_cells<E>(t: Tensor<E>, shape: Seq<int>, b: int, i: int, j: int)
    requires
        t.shape.len() == shape.len(),
        shape.len() >= 2,
        all_natural(shape),
        t.shape[shape.len() - 2] == shape[shape.len() - 2],
        t.shape[shape.len() - 1] == shape[shape.len() - 1],
        0 <= b < product(batch(shape)),
        0 <= i < shape[shape.len() - 2],
        0 <= j < shape[shape.len() - 1],
    ensures
        cell(spread(t, shape), b, i, j) == cell(
            t,
            batch_in(batch(t.shape), batch(shape), b),
            i,
            j,
        ),
{
    let m: int = shape[shape.len() - 2];
    let n: int = shape[shape.len() - 1];
    let c: int = product(batch(shape));
    let f: int = (b * m + i) * n + j;
    lemma_num_cells(shape);
    assert(0 <= f < c * m * n) by (nonlinear_arith)
        requires
            f == (b * m + i) * n + j,
            0 <= b < c,
            0 <= i < m,
            0 <= j < n,
    ;
    lemma_spread_cell(t.shape, shape, b, i, j);
}

/// Without rounding, the product of the gradient with the other factor is the gradient of the left
/// factor, repeated as it was: its inner product with a change that is repeated in the same way is
/// that of the gradient of the product with the change of the product.
pub proof fn law_spread_lhs_grad<E>(
    value: spec_fn(E) -> real,
    change: Tensor<E>,
    rhs: Tensor<E>,
    effect: Tensor<E>,
    grad: Tensor<E>,
    full: Tensor<E>,
)
    requires
        change.wf(),
        rhs.wf(),
        grad.wf(),
        full.wf(),
        matmul_shapes(change.shape, rhs.shape),
        is_exact_product(value, change, rhs, effect),
        grad.shape == effect.shape,
        is_exact_product(value, grad, rhs.transposed(), full),
    ensures
        inner_product(value, grad, effect) == inner_product(
            value,
            full,
            spread(change, full.shape),
        ),
        broadcasts(rhs.shape, change.shape) ==> full.shape == change.shape && spread(
            change,
            full.shape,
        ) == change,
{
    let rank: int = change.shape.len() as int;
    let repeated: Tensor<E> = spread(change, full.shape);
    let batches: Seq<int> = batch(effect.shape);
    lemma_folds(change.shape, rhs.shape);
    assert forall|k: int| 0 <= k < rank - 2 implies (#[trigger] rhs.shape[k] == full.shape[k]
        || rhs.shape[k] == 1) by {
        assert(change.shape[k] == rhs.shape[k] || change.shape[k] == 1 || rhs.shape[k] == 1);
    }
    assert(broadcasts(rhs.shape, repeated.shape));
    assert forall|k: int| 0 <= k < rank - 2 implies (#[trigger] full.shape[k] == rhs.shape[k]
        || full.shape[k] == 1 || rhs.shape[k] == 1) by {
        assert(rhs.shape[k] == full.shape[k] || rhs.shape[k] == 1);
    }
    assert(matmul_shapes(repeated.shape, rhs.shape));
    assert(matmul_shape(repeated.shape, rhs.shape) =~= effect.shape);
    assert(batch(repeated.shape) =~= batches);
    lemma_batch_natural(full.shape);
    let k: int = change.shape[rank - 1];
    assert forall|b: int, i: int, j: int|
        0 <= b < product(batches) && 0 <= i < full.shape[rank - 2] && 0 <= j < rhs.shape[rank
            - 1] implies value(#[trigger] cell(effect, b, i, j)) == sum(
        k,
        |p: int|
            value(cell(repeated, batch_in(batch(repeated.shape), batches, b), i, p)) * value(
                cell(rhs, batch_in(batch(rhs.shape), batches, b), p, j),
            ),
    ) by {
        let terms: spec_fn(int) -> real = |p: int|
            value(cell(change, batch_in(batch(change.shape), batches, b), i, p)) * value(
                cell(rhs, batch_in(batch(rhs.shape), batches, b), p, j),
            );
        let same: spec_fn(int) -> real = |p: int|
            value(cell(repeated, batch_in(batch(repeated.shape), batches, b), i, p)) * value(
                cell(rhs, batch_in(batch(rhs.shape), batches, b), p, j),
            );
        lemma_batch_same(batches, b);
        assert forall|p: int| 0 <= p < k implies #[trigger] terms(p) == same(p) by {
            lemma_spread_cells(change, full.shape, b, i, p);
        }
        lemma_sum_eq(k, terms, same);
        assert(value(cell(effect, b, i, j)) == sum(k, terms));
    }
    assert(is_exact_product(value, repeated, rhs, effect));
    law_lhs_grad(value, repeated, rhs, effect, grad, full);
    if broadcasts(rhs.shape, change.shape) {
        assert forall|h: int| 0 <= h < rank implies full.shape[h] == change.shape[h] by {
            if h < rank - 2 {
                assert(rhs.shape[h] == change.shape[h] || rhs.shape[h] == 1);
            }
        }
        assert(full.shape =~= change.shape);
        lemma_spread_same(change);
    }
}

/// Without rounding, what comes back for the left factor of a product of float tensors is the
/// gradient, whichever factor was repeated: for every change of the left factor, its inner product
/// with the change is that of the gradient of the product with the change of the product.
pub proof fn law_matmul_lhs_grad<E>(
    value: spec_fn(E) -> real,
    change: Tensor<E>,
    rhs: Tensor<E>,
    effect: Tensor<E>,
    grad: Tensor<E>,
    full: Tensor<E>,
    out: Tensor<E>,
)
    requires
        change.wf(),
        rhs.wf(),
        grad.wf(),
        full.wf(),
        matmul_shapes(change.shape, rhs.shape),
        is_exact_product(value, change, rhs, effect),
        grad.shape == effect.shape,
        is_exact_product(value, grad, rhs.transposed(), full),
        is_folded(exact_sums(value), change.shape, change.shape.len() - 2, full, out),
    ensures
        out.shape == change.shape,
        inner_product(value, grad, effect) == inner_product(value, out, change),
{
    let rank: int = change.shape.len() as int;
    lemma_folds(change.shape, rhs.shape);
    law_spread_lhs_grad(value, change, rhs, effect, grad, full);
    lemma_folded_inner(value, change, rank - 2, full, out);
    lemma_folded_shape(exact_sums(value), change.shape, rank - 2, full, out);
    lemma_spread_same(change);
}

/// Without rounding, the product of the gradient with the other factor is the gradient of the right
/// factor, repeated as it was: its inner product with a change that is repeated in the same way is
/// that of the gradient of the product with the change of the product.
pub proof fn law_spread_rhs_grad<E>(
    value: spec_fn(E) -> real,
    lhs: Tensor<E>,
    change: Tensor<E>,
    effect: Tensor<E>,
    grad: Tensor<E>,
    full: Tensor<E>,
)
    requires
        change.wf(),
        lhs.wf(),
        grad.wf(),
        full.wf(),
        matmul_shapes(lhs.shape, change.shape),
        is_exact_product(value, lhs, change, effect),
        grad.shape == effect.shape,
        is_exact_product(value, lhs.transposed(), grad, full),
    ensures
        inner_product(value, grad, effect) == inner_product(
            value,
            full,
            spread(change, full.shape),
        ),
        broadcasts(lhs.shape, change.shape) ==> full.shape == change.shape && spread(
            change,
            full.shape,
        ) == change,
{
    let rank: int = change.shape.len() as int;
    let repeated: Tensor<E> = spread(change, full.shape);
    let batches: Seq<int> = batch(effect.shape);
    lemma_folds(lhs.shape, change.shape);
    assert forall|k: int| 0 <= k < rank - 2 implies (#[trigger] lhs.shape[k] == full.shape[k]
        || lhs.shape[k] == 1) by {
        assert(lhs.shape[k] == change.shape[k] || lhs.shape[k] == 1 || change.shape[k] == 1);
    }
    assert(broadcasts(lhs.shape, repeated.shape));
    assert(matmul_shapes(lhs.shape, repeated.shape));
    assert forall|k: int| 0 <= k < rank implies #[trigger] matmul_shape(
        lhs.shape,
        repeated.shape,
    )[k] == effect.shape[k] by {
        if k < rank - 2 {
            assert(lhs.shape[k] == change.shape[k] || lhs.shape[k] == 1 || change.shape[k] == 1);
        }
    }
    assert(matmul_shape(lhs.shape, repeated.shape) =~= effect.shape);
    assert forall|k: int| 0 <= k < rank - 2 implies #[trigger] full.shape[k]
        == effect.shape[k] by {
        assert(lhs.shape[k] == change.shape[k] || lhs.shape[k] == 1 || change.shape[k] == 1);
    }
    assert(batch(repeated.shape) =~= batches);
    lemma_batch_natural(full.shape);
    let k: int = lhs.shape[rank - 1];
    assert forall|b: int, i: int, j: int|
        0 <= b < product(batches) && 0 <= i < lhs.shape[rank - 2] && 0 <= j < full.shape[rank
            - 1] implies value(#[trigger] cell(effect, b, i, j)) == sum(
        k,
        |p: int|
            value(cell(lhs, batch_in(batch(lhs.shape), batches, b), i, p)) * value(
                cell(repeated, batch_in(batch(repeated.shape), batches, b), p, j),
            ),
    ) by {
        let terms: spec_fn(int) -> real = |p: int|
            value(cell(lhs, batch_in(batch(lhs.shape), batches, b), i, p)) * value(
                cell(change, batch_in(batch(change.shape), batches, b), p, j),
            );
        let same: spec_fn(int) -> real = |p: int|
            value(cell(lhs, batch_in(batch(lhs.shape), batches, b), i, p)) * value(
                cell(repeated, batch_in(batch(repeated.shape), batches, b), p, j),
            );
        lemma_batch_same(batches, b);
        assert forall|p: int| 0 <= p < k implies #[trigger] terms(p) == same(p) by {
            lemma_spread_cells(change, full.shape, b, p, j);
        }
        lemma_sum_eq(k, terms, same);
        assert(value(cell(effect, b, i, j)) == sum(k, terms));
    }
    assert(is_exact_product(value, lhs, repeated, effect));
    law_rhs_grad(value, lhs, repeated, effect, grad, full);
    if broadcasts(lhs.shape, change.shape) {
        assert forall|h: int| 0 <= h < rank implies full.shape[h] == change.shape[h] by {
            if h < rank - 2 {
                assert(lhs.shape[h] == change.shape[h] || lhs.shape[h] == 1);
            }
        }
        assert(full.shape =~= change.shape);
        lemma_spread_same(change);
    }
}

/// Without rounding, what comes back for the right factor of a product of float tensors is the
/// gradient, whichever factor was repeated: for every change of the right factor, its inner product
/// with the change is that of the gradient of the product with the change of the product.
pub proof fn law_matmul_rhs_grad<E>(
    value: spec_fn(E) -> real,
    lhs: Tensor<E>,
    change: Tensor<E>,
    effect: Tensor<E>,
    grad: Tensor<E>,
    full: Tensor<E>,
    out: Tensor<E>,
)
    requires
        lhs.wf(),
        change.wf(),
        grad.wf(),
        full.wf(),
        matmul_shapes(lhs.shape, change.shape),
        is_exact_product(value, lhs, change, effect),
        grad.shape == effect.shape,
        is_exact_product(value, lhs.transposed(), grad, full),
        is_folded(exact_sums(value), change.shape, change.shape.len() - 2, full, out),
    ensures
        out.shape == change.shape,
        inner_product(value, grad, effect) == inner_product(value, out, change),
{
    let rank: int = change.shape.len() as int;
    lemma_folds(lhs.shape, change.shape);
    law_spread_rhs_grad(value, lhs, change, effect, grad, full);
    lemma_folded_inner(value, change, rank - 2, full, out);
    lemma_folded_shape(exact_sums(value), change.shape, rank - 2, full, out);
    lemma_spread_same(change);
}

} // verus!
