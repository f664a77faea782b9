//! The range of values that quantization has to cover.
use vstd::prelude::*;

use crate::backend::{all_numbers, ascending, descending, Backend};
use crate::blocks::{
    as_sides, block_len, block_of, block_reshape, covered, interleaved, is_blockable,
    is_least_per_block, lemma_block_in_shape, lemma_covered, lemma_covered_dim,
    lemma_interleaved_take, num_blocks,
};
use crate::laws::{belongs, law_block_range, law_range_entries, law_tensor_range};
use crate::scheme::{dim_vec, Calibration, QuantLevel, QuantScheme};
use crate::shape::{
    all_positive, as_dims, in_shape, lemma_product_positive, lemma_product_take, lemma_ravel_bound,
    lemma_ravel_cons, product, ravel,
};
use crate::tensor::{is_least, is_least_along, is_reduced_shape, lemma_reduced_product, Tensor};

verus! {

/// Among sequences that hold one tensor of dimensions `dims` after the other, the element `index`
/// of the tensor number `p`.
spec fn entry<E>(data: Seq<E>, dims: Seq<int>, p: int, index: Seq<int>) -> E {
    data[p * product(dims) + ravel(dims, index)]
}

/// `index` lies in the block `block` of a tensor with dimensions `dims`.
spec fn in_block(dims: Seq<int>, sides: Seq<int>, block: Seq<int>, index: Seq<int>) -> bool {
    in_shape(dims, index) && block_of(index, sides) == block
}

/// `x` is an element of the block `block` of the tensor number `p`.
spec fn is_member<E>(
    data: Seq<E>,
    dims: Seq<int>,
    sides: Seq<int>,
    p: int,
    block: Seq<int>,
    x: E,
) -> bool {
    exists|index: Seq<int>| #[trigger]
        in_block(dims, sides, block, index) && entry(data, dims, p, index) == x
}

/// `data` is what is left of `t` when its blocks were reduced in all dimensions from `m` on.
spec fn is_reduced_from<E>(
    key: spec_fn(E) -> int,
    t: Tensor<E>,
    sides: Seq<int>,
    m: int,
    data: Seq<E>,
) -> bool {
    let dims: Seq<int> = t.shape.skip(m);
    let blocks: Seq<int> = num_blocks(t.shape, sides).skip(m);
    let rest: Seq<int> = sides.skip(m);
    &&& data.len() == product(t.shape.take(m)) * product(blocks)
    &&& forall|p: int, index: Seq<int>|
        0 <= p < product(t.shape.take(m)) && in_shape(dims, index) ==> key(
            entry(data, blocks, p, block_of(index, rest)),
        ) <= key(#[trigger] entry(t.data, dims, p, index))
    &&& forall|p: int, block: Seq<int>|
        0 <= p < product(t.shape.take(m)) && in_shape(blocks, block) ==> is_member(
            t.data,
            dims,
            rest,
            p,
            block,
            #[trigger] entry(data, blocks, p, block),
        )
}

/// Reducing the blocks in one more dimension.
proof fn lemma_reduce_step<E>(
    key: spec_fn(E) -> int,
    t: Tensor<E>,
    sides: Seq<int>,
    k: int,
    before: Tensor<E>,
    after: Tensor<E>,
)
    requires
        all_positive(t.shape),
        all_positive(sides),
        t.shape.len() == sides.len(),
        is_blockable(t.shape, sides),
        0 <= k < t.shape.len(),
        2 * k + 1 < before.shape.len(),
        before.shape.take(2 * k + 2) == interleaved(t.shape, sides).take(2 * k + 2),
        product(before.shape.skip(2 * k + 2)) == product(num_blocks(t.shape, sides).skip(k + 1)),
        is_reduced_from(key, t, sides, k + 1, before.data),
        is_least_along(key, before, 2 * k + 1, after),
        after.data.len() == product(t.shape.take(k)) * product(num_blocks(t.shape, sides).skip(k)),
    ensures
        is_reduced_from(key, t, sides, k, after.data),
{
    let nb: Seq<int> = num_blocks(t.shape, sides);
    let inter: Seq<int> = interleaved(t.shape, sides);
    let d: int = 2 * k + 1;
    let n: int = nb[k];
    let b: int = block_len(t.shape[k], sides[k]);
    let s: int = t.shape[k];
    let pk: int = product(t.shape.take(k));
    let q: int = product(nb.skip(k + 1));
    let w: int = product(t.shape.skip(k + 1));
    assert(sides[k] >= 1);
    lemma_covered_dim(s, sides[k]);
    lemma_covered(t.shape, sides);
    assert(covered(t.shape, sides)[k] == n * b);
    assert(s == n * b);
    lemma_interleaved_take(t.shape, sides, k);
    assert(before.shape.take(d) =~= inter.take(d)) by {
        assert(before.shape.take(d) =~= before.shape.take(2 * k + 2).take(d));
        assert(inter.take(d) =~= inter.take(2 * k + 2).take(d));
    }
    assert(product(before.shape.take(d)) == pk * n);
    assert(before.shape[d] == b) by {
        assert(before.shape.take(2 * k + 2)[d] == inter.take(2 * k + 2)[d]);
        assert(inter[d] == b) by {
            assert(d / 2 == k && d % 2 == 1);
        }
    }
    lemma_product_take(t.shape, k);
    let dims: Seq<int> = t.shape.skip(k);
    let blocks: Seq<int> = nb.skip(k);
    let rest: Seq<int> = sides.skip(k);
    let dims1: Seq<int> = t.shape.skip(k + 1);
    let blocks1: Seq<int> = nb.skip(k + 1);
    let rest1: Seq<int> = sides.skip(k + 1);
    assert(dims.skip(1) =~= dims1);
    assert(blocks.skip(1) =~= blocks1);
    assert(product(dims) == s * w);
    assert(product(blocks) == n * q);
    assert forall|p: int, index: Seq<int>| 0 <= p < pk && in_shape(dims, index) implies key(
        entry(after.data, blocks, p, block_of(index, rest)),
    ) <= key(#[trigger] entry(t.data, dims, p, index)) by {
        let x: int = index[0];
        let tail: Seq<int> = index.skip(1);
        assert(0 <= x < s) by {
            assert(0 <= index[0] < dims[0]);
        }
        assert(in_shape(dims1, tail)) by {
            assert forall|j: int| 0 <= j < dims1.len() implies 0 <= #[trigger] tail[j]
                < dims1[j] by {
                assert(0 <= index[j + 1] < dims[j + 1]);
            }
        }
        let y: int = x / b;
        let j: int = x % b;
        lemma_split(x, n, b);
        let i: int = ravel(blocks1, block_of(tail, rest1));
        lemma_block_in_shape(t.shape, sides, k + 1, tail);
        lemma_ravel_bound(blocks1, block_of(tail, rest1));
        let o: int = p * n + y;
        lemma_position(p, pk, n, b, q, y, j, i);
        let fibre: Seq<E> = before.fibre(d, o, i);
        assert(is_least(key, fibre, after.data[o * q + i]));
        assert(fibre[j] == before.data[(o * b + j) * q + i]);
        assert(key(after.data[o * q + i]) <= key(fibre[j]));
        let p1: int = p * s + x;
        assert(fibre[j] == entry(before.data, blocks1, p1, block_of(tail, rest1)));
        assert(0 <= p1 < product(t.shape.take(k + 1)));
        assert(key(entry(before.data, blocks1, p1, block_of(tail, rest1))) <= key(
            entry(t.data, dims1, p1, tail),
        ));
        assert(p1 * w + ravel(dims1, tail) == p * (s * w) + (x * w + ravel(dims1, tail)))
            by (nonlinear_arith)
            requires
                p1 == p * s + x,
        ;
        assert(entry(t.data, dims1, p1, tail) == entry(t.data, dims, p, index));
        lemma_same_block(x, s, sides[k], y);
        let block: Seq<int> = block_of(index, rest);
        assert(block.skip(1) =~= block_of(tail, rest1));
        assert(block[0] == y);
        assert(entry(after.data, blocks, p, block) == after.data[o * q + i]) by {
            assert(p * (n * q) + (y * q + i) == o * q + i) by (nonlinear_arith)
                requires
                    o == p * n + y,
            ;
        }
    }
    assert forall|p: int, block: Seq<int>|
        0 <= p < pk && in_shape(blocks, block) implies is_member(
        t.data,
        dims,
        rest,
        p,
        block,
        #[trigger] entry(after.data, blocks, p, block),
    ) by {
        let y: int = block[0];
        let tail: Seq<int> = block.skip(1);
        assert(0 <= y < n) by {
            assert(0 <= block[0] < blocks[0]);
        }
        assert(in_shape(blocks1, tail)) by {
            assert forall|j: int| 0 <= j < blocks1.len() implies 0 <= #[trigger] tail[j]
                < blocks1[j] by {
                assert(0 <= block[j + 1] < blocks[j + 1]);
            }
        }
        lemma_ravel_bound(blocks1, tail);
        let i: int = ravel(blocks1, tail);
        let o: int = p * n + y;
        lemma_position(p, pk, n, b, q, y, 0, i);
        let fibre: Seq<E> = before.fibre(d, o, i);
        assert(is_least(key, fibre, after.data[o * q + i]));
        let j: int = choose|j: int|
            0 <= j < fibre.len() && fibre[j] == after.data[o * q + i];
        assert(fibre[j] == before.data[(o * b + j) * q + i]);
        lemma_position(p, pk, n, b, q, y, j, i);
        let x: int = y * b + j;
        let p1: int = p * s + x;
        assert(fibre[j] == entry(before.data, blocks1, p1, tail));
        assert(0 <= p1 < product(t.shape.take(k + 1)));
        assert(is_member(
            t.data,
            dims1,
            rest1,
            p1,
            tail,
            entry(before.data, blocks1, p1, tail),
        ));
        let inner: Seq<int> = choose|index: Seq<int>| #[trigger]
            in_block(dims1, rest1, tail, index) && entry(t.data, dims1, p1, index) == entry(
                before.data,
                blocks1,
                p1,
                tail,
            );
        assert(in_block(dims1, rest1, tail, inner));
        assert(0 <= x < s) by (nonlinear_arith)
            requires
                x == y * b + j,
                0 <= y < n,
                0 <= j < b,
                s == n * b,
        ;
        let index: Seq<int> = seq![x] + inner;
        lemma_ravel_cons(t.shape, k, x, inner);
        assert(p1 * w + ravel(dims1, inner) == p * (s * w) + (x * w + ravel(dims1, inner)))
            by (nonlinear_arith)
            requires
                p1 == p * s + x,
        ;
        lemma_join(y, b, j);
        lemma_same_block(x, s, sides[k], y);
        assert(block_of(index, rest) =~= block) by {
            assert forall|h: int| 0 <= h < block.len() implies block_of(index, rest)[h]
                == block[h] by {
                if h > 0 {
                    assert(index[h] == inner[h - 1]);
                    assert(block_of(inner, rest1)[h - 1] == tail[h - 1]);
                }
            }
        }
        assert(in_block(dims, rest, block, index));
        assert(entry(after.data, blocks, p, block) == after.data[o * q + i]) by {
            assert(p * (n * q) + (y * q + i) == o * q + i) by (nonlinear_arith)
                requires
                    o == p * n + y,
            ;
        }
    }
}

/// A coordinate splits into its block and its place in the block.
proof fn lemma_split(x: int, n: int, b: int)
    requires
        0 <= x < n * b,
        b >= 1,
    ensures
        0 <= x / b < n,
        0 <= x % b < b,
        x == (x / b) * b + x % b,
{
    vstd::arithmetic::div_mod::lemma_fundamental_div_mod(x, b);
    vstd::arithmetic::div_mod::lemma_mod_bound(x, b);
    let q: int = x / b;
    let m: int = x % b;
    assert(0 <= q < n && x == q * b + m) by (nonlinear_arith)
        requires
            x == b * q + m,
            0 <= m < b,
            0 <= x < n * b,
            b >= 1,
    ;
}

/// A block and a place in it give back the block.
proof fn lemma_join(y: int, b: int, j: int)
    requires
        0 <= j < b,
    ensures
        (y * b + j) / b == y,
{
    let x: int = y * b + j;
    vstd::arithmetic::div_mod::lemma_fundamental_div_mod(x, b);
    vstd::arithmetic::div_mod::lemma_mod_bound(x, b);
    let q: int = x / b;
    let m: int = x % b;
    assert(q == y) by (nonlinear_arith)
        requires
            x == b * q + m,
            0 <= m < b,
            x == y * b + j,
            0 <= j < b,
    ;
}

/// Where the side of a block exceeds the dimension, dividing by either gives the only block.
proof fn lemma_same_block(x: int, size: int, side: int, y: int)
    requires
        0 <= x < size,
        side >= 1,
        y == x / block_len(size, side),
    ensures
        x / side == y,
{
    if side >= size {
        vstd::arithmetic::div_mod::lemma_basic_div(x, size);
        vstd::arithmetic::div_mod::lemma_basic_div(x, side);
    }
}

/// Row-major positions before and after a reduction.
proof fn lemma_position(p: int, pk: int, n: int, b: int, q: int, y: int, j: int, i: int)
    requires
        0 <= p < pk,
        0 <= y < n,
        0 <= j < b,
        0 <= i < q,
    ensures
        0 <= p * n + y < pk * n,
        ((p * n + y) * b + j) * q + i == (p * (n * b) + (y * b + j)) * q + i,
        0 <= p * (n * b) + (y * b + j) < pk * (n * b),
{
    assert(0 <= p * n + y < pk * n) by (nonlinear_arith)
        requires
            0 <= p < pk,
            0 <= y < n,
    ;
    assert((p * n + y) * b + j == p * (n * b) + (y * b + j)) by (nonlinear_arith);
    assert(0 <= y * b + j < n * b) by (nonlinear_arith)
        requires
            0 <= y < n,
            0 <= j < b,
    ;
    let x: int = y * b + j;
    let s: int = n * b;
    assert(0 <= p * s + x < pk * s) by (nonlinear_arith)
        requires
            0 <= p < pk,
            0 <= x < s,
    ;
}

/// Every element of a reduced tensor was there before.
proof fn lemma_reduced_elements<E>(
    key: spec_fn(E) -> int,
    before: Tensor<E>,
    dim: int,
    after: Tensor<E>,
    f: int,
)
    requires
        0 <= dim < before.shape.len(),
        is_reduced_shape(before.shape, dim, after.shape),
        before.data.len() == product(before.shape),
        after.data.len() == product(after.shape),
        is_least_along(key, before, dim, after),
        before.shape[dim] >= 1,
        product(before.shape.skip(dim + 1)) >= 1,
        0 <= f < after.data.len(),
    ensures
        before.data.contains(after.data[f]),
{
    lemma_reduced_product(before.shape, dim, after.shape);
    let outer: int = product(before.shape.take(dim));
    let n: int = before.shape[dim];
    let stride: int = product(before.shape.skip(dim + 1));
    lemma_split(f, outer, stride);
    let o: int = f / stride;
    let i: int = f % stride;
    let fibre: Seq<E> = before.fibre(dim, o, i);
    assert(is_least(key, fibre, after.data[o * stride + i]));
    let j: int = choose|j: int| 0 <= j < fibre.len() && fibre[j] == after.data[f];
    let g: int = (o * n + j) * stride + i;
    assert(0 <= g < outer * (n * stride)) by (nonlinear_arith)
        requires
            g == (o * n + j) * stride + i,
            0 <= o < outer,
            0 <= j < n,
            0 <= i < stride,
    ;
    assert(before.data[g] == after.data[f]);
}

/// `tensor` is `t`, cut into blocks and reduced inside them in all dimensions from `m` on.
spec fn is_stage<B: Backend>(
    key: spec_fn(B::Elem) -> int,
    t: Tensor<B::Elem>,
    sides: Seq<int>,
    m: int,
    tensor: Tensor<B::Elem>,
) -> bool {
    &&& 2 * m <= tensor.shape.len()
    &&& tensor.shape.take(2 * m) == interleaved(t.shape, sides).take(2 * m)
    &&& product(tensor.shape.skip(2 * m)) == product(num_blocks(t.shape, sides).skip(m))
    &&& tensor.data.len() == product(tensor.shape)
    &&& all_numbers::<B>(t) ==> all_numbers::<B>(tensor) && is_reduced_from(
        key,
        t,
        sides,
        m,
        tensor.data,
    )
}

/// Each dimension of the grid of blocks is at least one.
proof fn lemma_num_blocks_positive(shape: Seq<int>, sides: Seq<int>, m: int)
    requires
        all_positive(shape),
        all_positive(sides),
        shape.len() == sides.len(),
        0 <= m <= shape.len(),
    ensures
        product(num_blocks(shape, sides).skip(m)) >= 1,
        all_positive(num_blocks(shape, sides)),
{
    let blocks: Seq<int> = num_blocks(shape, sides);
    assert forall|k: int| 0 <= k < blocks.len() implies #[trigger] blocks[k] >= 1 by {
        assert(sides[k] >= 1);
        assert(shape[k] >= 1);
        lemma_covered_dim(shape[k], sides[k]);
    }
    let rest: Seq<int> = blocks.skip(m);
    assert forall|k: int| 0 <= k < rest.len() implies #[trigger] rest[k] >= 1 by {
        assert(rest[k] == blocks[m + k]);
    }
    lemma_product_positive(rest);
}

/// Before any reduction.
proof fn lemma_first_stage<B: Backend>(
    key: spec_fn(B::Elem) -> int,
    t: Tensor<B::Elem>,
    sides: Seq<int>,
    tensor: Tensor<B::Elem>,
)
    requires
        t.wf(),
        all_positive(t.shape),
        all_positive(sides),
        t.shape.len() == sides.len(),
        is_blockable(t.shape, sides),
        tensor.shape == interleaved(t.shape, sides),
        tensor.data == t.data,
    ensures
        product(interleaved(t.shape, sides)) == product(t.shape),
        is_stage::<B>(key, t, sides, t.shape.len() as int, tensor),
{
    let m: int = t.shape.len() as int;
    let inter: Seq<int> = interleaved(t.shape, sides);
    let nothing: Seq<int> = Seq::empty();
    lemma_covered(t.shape, sides);
    lemma_interleaved_take(t.shape, sides, m);
    assert(inter.take(2 * m) =~= inter);
    assert(t.shape.take(m) =~= t.shape);
    assert(inter.skip(2 * m) =~= nothing);
    assert(num_blocks(t.shape, sides).skip(m) =~= nothing);
    assert(t.shape.skip(m) =~= nothing);
    assert(sides.skip(m) =~= nothing);
    assert(product(nothing) == 1);
    assert forall|p: int, index: Seq<int>|
        0 <= p < product(t.shape) && in_shape(nothing, index) implies key(
        entry(tensor.data, nothing, p, block_of(index, nothing)),
    ) <= key(#[trigger] entry(t.data, nothing, p, index)) by {}
    assert forall|p: int, block: Seq<int>|
        0 <= p < product(t.shape) && in_shape(nothing, block) implies is_member(
        t.data,
        nothing,
        nothing,
        p,
        block,
        #[trigger] entry(tensor.data, nothing, p, block),
    ) by {
        assert(block_of(block, nothing) =~= block);
        assert(in_block(nothing, nothing, block, block));
    }
}

/// From one stage to the next.
proof fn lemma_next_stage<B: Backend>(
    key: spec_fn(B::Elem) -> int,
    t: Tensor<B::Elem>,
    sides: Seq<int>,
    k: int,
    before: Tensor<B::Elem>,
    after: Tensor<B::Elem>,
)
    requires
        all_positive(t.shape),
        all_positive(sides),
        t.shape.len() == sides.len(),
        is_blockable(t.shape, sides),
        0 <= k < t.shape.len(),
        is_stage::<B>(key, t, sides, k + 1, before),
        is_reduced_shape(before.shape, 2 * k + 1, after.shape),
        after.data.len() == product(after.shape),
        all_numbers::<B>(before) ==> is_least_along(key, before, 2 * k + 1, after),
    ensures
        is_stage::<B>(key, t, sides, k, after),
{
    let d: int = 2 * k + 1;
    let inter: Seq<int> = interleaved(t.shape, sides);
    let nb: Seq<int> = num_blocks(t.shape, sides);
    lemma_reduced_product(before.shape, d, after.shape);
    lemma_num_blocks_positive(t.shape, sides, k + 1);
    lemma_block_dim(t.shape, sides, k, before.shape);
    assert(before.shape.skip(d + 1) == before.shape.skip(2 * (k + 1)));
    lemma_covered(t.shape, sides);
    lemma_interleaved_take(t.shape, sides, k);
    assert(covered(t.shape, sides) == t.shape);
    assert(before.shape.take(d) =~= inter.take(d)) by {
        assert(before.shape.take(d) =~= before.shape.take(2 * k + 2).take(d));
        assert(inter.take(d) =~= inter.take(2 * k + 2).take(d));
    }
    assert(after.shape.take(2 * k) =~= inter.take(2 * k)) by {
        assert(after.shape.take(2 * k) =~= after.shape.take(d).take(2 * k));
        assert(inter.take(2 * k) =~= inter.take(d).take(2 * k));
    }
    let n: int = nb[k];
    let q: int = product(nb.skip(k + 1));
    let pk: int = product(t.shape.take(k));
    assert(nb.skip(k).skip(1) =~= nb.skip(k + 1));
    assert(product(nb.skip(k)) == n * q);
    assert(after.shape.skip(2 * k).skip(1) =~= after.shape.skip(d));
    assert(after.shape[2 * k] == n) by {
        assert(after.shape.take(d)[2 * k] == inter.take(d)[2 * k]);
        assert((2 * k) / 2 == k);
    }
    assert(product(after.shape.skip(2 * k)) == n * q);
    assert(after.data.len() == pk * (n * q)) by {
        assert((pk * n) * q == pk * (n * q)) by (nonlinear_arith);
    }
    if all_numbers::<B>(t) {
        lemma_reduce_step(key, t, sides, k, before, after);
        assert forall|f: int| 0 <= f < after.data.len() implies !B::is_nan(
            #[trigger] after.data[f],
        ) by {
            lemma_reduced_elements(key, before, d, after, f);
        }
    }
}

/// After all reductions.
proof fn lemma_last_stage<B: Backend>(
    key: spec_fn(B::Elem) -> int,
    t: Tensor<B::Elem>,
    sides: Seq<int>,
    tensor: Tensor<B::Elem>,
    out: Tensor<B::Elem>,
)
    requires
        all_positive(t.shape),
        all_positive(sides),
        t.shape.len() == sides.len(),
        is_stage::<B>(key, t, sides, 0, tensor),
        out.shape == num_blocks(t.shape, sides),
        out.data == tensor.data,
    ensures
        product(tensor.shape) == product(num_blocks(t.shape, sides)),
        all_numbers::<B>(t) ==> is_least_per_block(key, t, sides, out),
{
    let nb: Seq<int> = num_blocks(t.shape, sides);
    assert(tensor.shape.skip(0) =~= tensor.shape);
    assert(nb.skip(0) =~= nb);
    assert(t.shape.skip(0) =~= t.shape);
    assert(sides.skip(0) =~= sides);
    assert(t.shape.take(0) =~= Seq::<int>::empty());
    assert(product(t.shape.take(0)) == 1);
    if all_numbers::<B>(t) {
        assert forall|index: Seq<int>| in_shape(t.shape, index) implies key(
            out.at(block_of(index, sides)),
        ) <= key(#[trigger] t.at(index)) by {
            assert(t.at(index) == entry(t.data, t.shape, 0, index));
            assert(out.at(block_of(index, sides)) == entry(
                tensor.data,
                nb,
                0,
                block_of(index, sides),
            ));
        }
        assert forall|block: Seq<int>| #[trigger] in_shape(nb, block) implies exists|
            index: Seq<int>,
        |
            in_shape(t.shape, index) && block_of(index, sides) == block && #[trigger] t.at(index)
                == out.at(block) by {
            assert(out.at(block) == entry(tensor.data, nb, 0, block));
            assert(is_member(t.data, t.shape, sides, 0, block, entry(tensor.data, nb, 0, block)));
            let index: Seq<int> = choose|index: Seq<int>| #[trigger]
                in_block(t.shape, sides, block, index) && entry(t.data, t.shape, 0, index)
                    == out.at(block);
            assert(in_block(t.shape, sides, block, index));
            assert(t.at(index) == out.at(block));
        }
    }
}

/// The sides of the blocks into which a scheme cuts a tensor with `rank` dimensions.
pub open spec fn block_sides(block: Seq<u8>, rank: int) -> Seq<int> {
    as_sides(dim_vec(block, rank))
}

/// A tensor with these dimensions has a range at this level: it has elements, and where the level
/// asks for blocks, no side is zero and each dimension is a multiple of the side of a block or
/// smaller than it.
pub open spec fn has_range(level: QuantLevel, shape: Seq<int>) -> bool {
    &&& all_positive(shape)
    &&& level matches QuantLevel::Block(block) ==> {
        let sides: Seq<int> = block_sides(block@, shape.len() as int);
        all_positive(sides) && is_blockable(shape, sides)
    }
}

/// The dimensions of the range at this level.
pub open spec fn range_shape(level: QuantLevel, shape: Seq<int>) -> Seq<int> {
    match level {
        QuantLevel::Tensor => seq![1int],
        QuantLevel::Block(block) => num_blocks(shape, block_sides(block@, shape.len() as int)),
    }
}

/// `out` holds the elements of `t` with the least key: one for the whole tensor, or one for each
/// block.
pub open spec fn is_range_end<E>(
    key: spec_fn(E) -> int,
    level: QuantLevel,
    t: Tensor<E>,
    out: Tensor<E>,
) -> bool {
    match level {
        QuantLevel::Tensor => is_least(key, t.data, out.data[0]),
        QuantLevel::Block(block) => is_least_per_block(
            key,
            t,
            block_sides(block@, t.shape.len() as int),
            out,
        ),
    }
}

/// The range of each block of a tensor.
fn compute_block_range<B: Backend>(
    tensor: B::FloatTensorPrimitive,
    shape: &[usize],
    block_dims: &[u8],
) -> (range: (B::FloatTensorPrimitive, B::FloatTensorPrimitive))
    requires
        B::float_view(tensor).wf(),
        B::float_view(tensor).shape == as_dims(shape@),
        B::float_view(tensor).data.len() <= usize::MAX,
        shape@.len() == block_dims@.len(),
        all_positive(as_dims(shape@)),
        all_positive(as_sides(block_dims@)),
        is_blockable(as_dims(shape@), as_sides(block_dims@)),
    ensures
        B::float_view(range.0).shape == num_blocks(as_dims(shape@), as_sides(block_dims@)),
        B::float_view(range.1).shape == num_blocks(as_dims(shape@), as_sides(block_dims@)),
        B::float_view(range.0).wf(),
        B::float_view(range.1).wf(),
        all_numbers::<B>(B::float_view(tensor)) ==> is_least_per_block(
            ascending::<B>(),
            B::float_view(tensor),
            as_sides(block_dims@),
            B::float_view(range.0),
        ),
        all_numbers::<B>(B::float_view(tensor)) ==> is_least_per_block(
            descending::<B>(),
            B::float_view(tensor),
            as_sides(block_dims@),
            B::float_view(range.1),
        ),
{
    let ghost t: Tensor<B::Elem> = B::float_view(tensor);
    let ghost sides: Seq<int> = as_sides(block_dims@);
    let ghost inter: Seq<int> = interleaved(t.shape, sides);
    let ghost nb: Seq<int> = num_blocks(t.shape, sides);
    let rank: usize = shape.len();
    // The dimensions of the blocked tensor: number of blocks and length of a block in turn.
    let reshape: Vec<usize> = block_reshape(shape, block_dims).unwrap();
    let grid: Vec<usize> = block_grid(reshape.as_slice());
    assert(as_dims(reshape@).len() == 2 * rank);
    let total: usize = reshape.len();
    assert(as_dims(grid@) =~= nb) by {
        assert forall|k: int| 0 <= k < rank implies as_dims(grid@)[k] == nb[k] by {
            assert(as_dims(reshape@)[2 * k] == inter[2 * k]);
            assert((2 * k) / 2 == k);
        }
    }
    proof {
        lemma_first_stage::<B>(
            ascending::<B>(),
            t,
            sides,
            Tensor { shape: inter, data: t.data },
        );
    }
    let blocked: B::FloatTensorPrimitive = B::float_reshape(tensor, reshape);
    // Reduce inside the blocks, the innermost dimension first: whether a reduced dimension goes or
    // stays, those still to come keep their places.
    let mut blocks_min: B::FloatTensorPrimitive = B::float_clone(&blocked);
    let mut blocks_max: B::FloatTensorPrimitive = blocked;
    proof {
        lemma_first_stage::<B>(ascending::<B>(), t, sides, B::float_view(blocks_min));
        lemma_first_stage::<B>(descending::<B>(), t, sides, B::float_view(blocks_max));
    }
    let mut i: usize = rank;
    while i > 0
        invariant
            all_positive(t.shape),
            all_positive(sides),
            t.shape.len() == rank,
            sides.len() == rank,
            is_blockable(t.shape, sides),
            inter == interleaved(t.shape, sides),
            i <= rank,
            total == 2 * rank,
            is_stage::<B>(ascending::<B>(), t, sides, i as int, B::float_view(blocks_min)),
            is_stage::<B>(descending::<B>(), t, sides, i as int, B::float_view(blocks_max)),
        decreases i,
    {
        i = i - 1;
        let dim: usize = 2 * i + 1;
        let ghost min0: Tensor<B::Elem> = B::float_view(blocks_min);
        let ghost max0: Tensor<B::Elem> = B::float_view(blocks_max);
        proof {
            lemma_block_dim(t.shape, sides, i as int, min0.shape);
            lemma_block_dim(t.shape, sides, i as int, max0.shape);
        }
        blocks_min = B::float_min_dim(blocks_min, dim);
        blocks_max = B::float_max_dim(blocks_max, dim);
        proof {
            lemma_next_stage::<B>(
                ascending::<B>(),
                t,
                sides,
                i as int,
                min0,
                B::float_view(blocks_min),
            );
            lemma_next_stage::<B>(
                descending::<B>(),
                t,
                sides,
                i as int,
                max0,
                B::float_view(blocks_max),
            );
        }
    }
    proof {
        let min0: Tensor<B::Elem> = B::float_view(blocks_min);
        let max0: Tensor<B::Elem> = B::float_view(blocks_max);
        lemma_last_stage::<B>(
            ascending::<B>(),
            t,
            sides,
            min0,
            Tensor { shape: nb, data: min0.data },
        );
        lemma_last_stage::<B>(
            descending::<B>(),
            t,
            sides,
            max0,
            Tensor { shape: nb, data: max0.data },
        );
        lemma_num_blocks_positive(t.shape, sides, 0);
    }
    (B::float_reshape(blocks_min, grid.clone()), B::float_reshape(blocks_max, grid))
}

/// The dimensions that tell blocks apart: those at even places.
fn block_grid(reshape: &[usize]) -> (grid: Vec<usize>)
    ensures
        grid@.len() == (reshape@.len() + 1) / 2,
        forall|k: int| 0 <= k < grid@.len() ==> #[trigger] grid@[k] == reshape@[2 * k],
{
    let mut grid: Vec<usize> = Vec::new();
    let mut i: usize = 0;
    let n: usize = reshape.len();
    while i < n
        invariant
            n == reshape@.len(),
            i <= n,
            grid@.len() == (i + 1) / 2,
            i % 2 == 0 || i == n,
            forall|k: int| 0 <= k < grid@.len() ==> #[trigger] grid@[k] == reshape@[2 * k],
        decreases n - i,
    {
        grid.push(reshape[i]);
        if n - i >= 2 {
            i = i + 2;
        } else {
            i = n;
        }
    }
    grid
}

/// The dimension that is reduced next is the length of a block.
proof fn lemma_block_dim(shape: Seq<int>, sides: Seq<int>, k: int, now: Seq<int>)
    requires
        all_positive(shape),
        all_positive(sides),
        shape.len() == sides.len(),
        0 <= k < shape.len(),
        2 * (k + 1) <= now.len(),
        now.take(2 * (k + 1)) == interleaved(shape, sides).take(2 * (k + 1)),
    ensures
        now[2 * k + 1] >= 1,
{
    let inter: Seq<int> = interleaved(shape, sides);
    assert(now.take(2 * (k + 1))[2 * k + 1] == inter.take(2 * (k + 1))[2 * k + 1]);
    assert((2 * k + 1) / 2 == k);
    assert(sides[k] >= 1);
    lemma_covered_dim(shape[k], sides[k]);
}

/// A tensor with one element.
proof fn lemma_one_element()
    ensures
        product(seq![1int]) == 1,
{
    assert(seq![1int].skip(1) =~= Seq::<int>::empty());
    assert(product(seq![1int].skip(1)) == 1);
}

/// The smallest and the largest values of a tensor: two tensors with one element each, or where
/// the scheme quantizes blocks, with one element for each block. What they hold is stated for
/// tensors of numbers; what becomes of an element that is not a number is up to the backend. To cut
/// a tensor into blocks, its elements are counted.
pub fn compute_range<B: Backend>(
    scheme: &QuantScheme,
    tensor: B::FloatTensorPrimitive,
    calibration: &Calibration,
) -> (range: (B::FloatTensorPrimitive, B::FloatTensorPrimitive))
    requires
        B::float_view(tensor).wf(),
        has_range(scheme.level, B::float_view(tensor).shape),
        scheme.level is Block ==> product(B::float_view(tensor).shape) <= usize::MAX,
    ensures
        B::float_view(range.0).shape == range_shape(scheme.level, B::float_view(tensor).shape),
        B::float_view(range.1).shape == range_shape(scheme.level, B::float_view(tensor).shape),
        B::float_view(range.0).wf(),
        B::float_view(range.1).wf(),
        all_numbers::<B>(B::float_view(tensor)) ==> is_range_end(
            ascending::<B>(),
            scheme.level,
            B::float_view(tensor),
            B::float_view(range.0),
        ),
        all_numbers::<B>(B::float_view(tensor)) ==> is_range_end(
            descending::<B>(),
            scheme.level,
            B::float_view(tensor),
            B::float_view(range.1),
        ),
        scheme.level is Tensor ==> B::float_view(range.0).shape == seq![1int],
        scheme.level is Block ==> {
            let shape: Seq<int> = B::float_view(tensor).shape;
            let entries: Seq<int> = B::float_view(range.0).shape;
            let block: Seq<u8> = scheme.level->Block_0@;
            &&& entries.len() == shape.len()
            &&& forall|k: int|
                0 <= k < shape.len() ==> {
                    let side: int = if k < shape.len() - block.len() {
                        1
                    } else if block.len() <= shape.len() {
                        block[k - (shape.len() - block.len())] as int
                    } else {
                        block[k] as int
                    };
                    (entries[k] - 1) * side < #[trigger] shape[k] <= entries[k] * side
                }
        },
        B::float_view(range.1).shape == B::float_view(range.0).shape,
        (forall|i: int|
            0 <= i < B::float_view(tensor).data.len() ==> !B::is_nan(
                #[trigger] B::float_view(tensor).data[i],
            )) && scheme.level is Tensor ==> {
            let t: Tensor<B::Elem> = B::float_view(tensor);
            let min: B::Elem = B::float_view(range.0).data[0];
            let max: B::Elem = B::float_view(range.1).data[0];
            &&& forall|i: int|
                0 <= i < t.data.len() ==> B::order(min) <= B::order(#[trigger] t.data[i])
                    <= B::order(max)
            &&& exists|i: int| 0 <= i < t.data.len() && #[trigger] t.data[i] == min
            &&& exists|i: int| 0 <= i < t.data.len() && #[trigger] t.data[i] == max
        },
        (forall|i: int|
            0 <= i < B::float_view(tensor).data.len() ==> !B::is_nan(
                #[trigger] B::float_view(tensor).data[i],
            )) && scheme.level is Block ==> forall|position: Seq<int>| #[trigger]
            in_shape(B::float_view(range.0).shape, position) ==> {
                let t: Tensor<B::Elem> = B::float_view(tensor);
                let block: Seq<u8> = scheme.level->Block_0@;
                let min: B::Elem = B::float_view(range.0).at(position);
                let max: B::Elem = B::float_view(range.1).at(position);
                &&& forall|index: Seq<int>|
                    in_shape(t.shape, index) && belongs(block, index, position) ==> B::order(min)
                        <= B::order(#[trigger] t.at(index)) <= B::order(max)
                &&& exists|index: Seq<int>|
                    in_shape(t.shape, index) && belongs(block, index, position)
                        && #[trigger] t.at(index) == min
                &&& exists|index: Seq<int>|
                    in_shape(t.shape, index) && belongs(block, index, position)
                        && #[trigger] t.at(index) == max
            },
{
    let ghost t: Tensor<B::Elem> = B::float_view(tensor);
    match calibration {
        Calibration::MinMax => match scheme.level {
            QuantLevel::Tensor => {
                proof {
                    lemma_product_positive(t.shape);
                    lemma_one_element();
                }
                let range: (B::FloatTensorPrimitive, B::FloatTensorPrimitive) = (
                    B::float_min(B::float_clone(&tensor)),
                    B::float_max(tensor),
                );
                proof {
                    if all_numbers::<B>(t) {
                        law_tensor_range::<B>(t, B::float_view(range.0), B::float_view(range.1));
                    }
                }
                range
            },
            QuantLevel::Block(block) => {
                let shape: Vec<usize> = B::float_shape(&tensor);
                let rank: usize = shape.len();
                let block_dims: Vec<u8> = block.to_dim_vec(rank);
                assert(t.shape.len() == rank);
                let range: (B::FloatTensorPrimitive, B::FloatTensorPrimitive) =
                    compute_block_range::<B>(tensor, shape.as_slice(), block_dims.as_slice());
                proof {
                    assert forall|k: int| 0 <= k < t.shape.len() implies ({
                        let side: int = if k < t.shape.len() - block@.len() {
                            1
                        } else if block@.len() <= t.shape.len() {
                            block@[k - (t.shape.len() - block@.len())] as int
                        } else {
                            block@[k] as int
                        };
                        let entries: int = B::float_view(range.0).shape[k];
                        (entries - 1) * side < #[trigger] t.shape[k] <= entries * side
                    }) by {
                        law_range_entries(scheme.level, t.shape, k);
                    }
                    if all_numbers::<B>(t) {
                        let min: Tensor<B::Elem> = B::float_view(range.0);
                        let max: Tensor<B::Elem> = B::float_view(range.1);
                        assert forall|position: Seq<int>| #[trigger]
                            in_shape(min.shape, position) implies ({
                            &&& forall|index: Seq<int>|
                                in_shape(t.shape, index) && belongs(block@, index, position)
                                    ==> B::order(min.at(position)) <= B::order(
                                    #[trigger] t.at(index),
                                ) <= B::order(max.at(position))
                            &&& exists|index: Seq<int>|
                                in_shape(t.shape, index) && belongs(block@, index, position)
                                    && #[trigger] t.at(index) == min.at(position)
                            &&& exists|index: Seq<int>|
                                in_shape(t.shape, index) && belongs(block@, index, position)
                                    && #[trigger] t.at(index) == max.at(position)
                        }) by {
                            law_block_range::<B>(block, t, min, max, position);
                        }
                    }
                }
                range
            },
        },
    }
}

} // verus!
