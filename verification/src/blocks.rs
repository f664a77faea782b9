//! Cutting a tensor into blocks of equal size.
use vstd::prelude::*;

use crate::shape::{
    all_positive, as_dims, checked_num_elements, in_shape, lemma_product_positive,
    lemma_product_take, product,
};
use crate::tensor::Tensor;

verus! {

/// The sides of a block as mathematical integers.
pub open spec fn as_sides(sides: Seq<u8>) -> Seq<int> {
    sides.map_values(|b: u8| b as int)
}

/// How many blocks with side `side` it takes to cover `size`.
pub open spec fn ceil_div(size: int, side: int) -> int {
    (size + side - 1) / side
}

/// The number of blocks along each dimension.
pub open spec fn num_blocks(shape: Seq<int>, sides: Seq<int>) -> Seq<int> {
    Seq::new(shape.len(), |k: int| ceil_div(shape[k], sides[k]))
}

/// The size of a block along a dimension: a dimension smaller than the side is one block.
pub open spec fn block_len(size: int, side: int) -> int {
    if side < size {
        side
    } else {
        size
    }
}

/// Each dimension is a multiple of the side of the block or smaller than it.
pub open spec fn is_blockable(shape: Seq<int>, sides: Seq<int>) -> bool {
    forall|k: int|
        0 <= k < shape.len() ==> #[trigger] shape[k] % sides[k] == 0 || shape[k] < sides[k]
}

/// The dimensions that tell blocks apart alternating with those inside a block.
pub open spec fn interleaved(shape: Seq<int>, sides: Seq<int>) -> Seq<int> {
    Seq::new(
        2 * shape.len(),
        |i: int|
            if i % 2 == 0 {
                ceil_div(shape[i / 2], sides[i / 2])
            } else {
                block_len(shape[i / 2], sides[i / 2])
            },
    )
}

/// The block in which an element lies.
pub open spec fn block_of(index: Seq<int>, sides: Seq<int>) -> Seq<int> {
    Seq::new(index.len(), |k: int| index[k] / sides[k])
}

/// `out` has one element for each block of `t`: the element of the block with the least key.
pub open spec fn is_least_per_block<E>(
    key: spec_fn(E) -> int,
    t: Tensor<E>,
    sides: Seq<int>,
    out: Tensor<E>,
) -> bool {
    &&& forall|index: Seq<int>|
        in_shape(t.shape, index) ==> key(out.at(block_of(index, sides))) <= key(
            #[trigger] t.at(index),
        )
    &&& forall|block: Seq<int>| #[trigger]
        in_shape(num_blocks(t.shape, sides), block) ==> exists|index: Seq<int>|
            in_shape(t.shape, index) && block_of(index, sides) == block && #[trigger] t.at(index)
                == out.at(block)
}

/// The elements that blocks cover along each dimension.
pub open spec fn covered(shape: Seq<int>, sides: Seq<int>) -> Seq<int> {
    Seq::new(shape.len(), |k: int| ceil_div(shape[k], sides[k]) * block_len(shape[k], sides[k]))
}

pub proof fn lemma_covered_dim(size: int, side: int)
    requires
        size >= 1,
        side >= 1,
    ensures
        ceil_div(size, side) >= 1,
        block_len(size, side) >= 1,
        ceil_div(size, side) * block_len(size, side) >= size,
        ceil_div(size, side) * block_len(size, side) == size <==> (size % side == 0 || size < side),
        size < side ==> ceil_div(size, side) == 1,
{
    let n: int = ceil_div(size, side);
    vstd::arithmetic::div_mod::lemma_fundamental_div_mod(size + side - 1, side);
    vstd::arithmetic::div_mod::lemma_mod_bound(size + side - 1, side);
    vstd::arithmetic::div_mod::lemma_fundamental_div_mod(size, side);
    vstd::arithmetic::div_mod::lemma_mod_bound(size, side);
    let r: int = (size + side - 1) % side;
    let q: int = size / side;
    let m: int = size % side;
    assert(size + side - 1 == side * n + r);
    assert(n >= 1) by (nonlinear_arith)
        requires
            size + side - 1 == side * n + r,
            0 <= r < side,
            size >= 1,
            side >= 1,
    ;
    assert(n * side >= size) by (nonlinear_arith)
        requires
            size + side - 1 == side * n + r,
            0 <= r < side,
    ;
    if size <= side {
        assert(n == 1) by (nonlinear_arith)
            requires
                size + side - 1 == side * n + r,
                0 <= r < side,
                1 <= size <= side,
                n >= 1,
        ;
        if size == side {
            assert(m == 0) by (nonlinear_arith)
                requires
                    size == side * q + m,
                    0 <= m < side,
                    size == side,
            ;
        }
    } else {
        assert((n * side == size) <==> m == 0) by (nonlinear_arith)
            requires
                size + side - 1 == side * n + r,
                0 <= r < side,
                size == side * q + m,
                0 <= m < side,
        ;
    }
}

pub proof fn lemma_covered(shape: Seq<int>, sides: Seq<int>)
    requires
        all_positive(shape),
        all_positive(sides),
        shape.len() == sides.len(),
    ensures
        forall|k: int| 0 <= k < shape.len() ==> #[trigger] covered(shape, sides)[k] >= shape[k],
        covered(shape, sides) == shape <==> is_blockable(shape, sides),
{
    let c: Seq<int> = covered(shape, sides);
    assert forall|k: int| 0 <= k < shape.len() implies #[trigger] c[k] >= shape[k] && (c[k]
        == shape[k] <==> (shape[k] % sides[k] == 0 || shape[k] < sides[k])) by {
        assert(sides[k] >= 1);
        lemma_covered_dim(shape[k], sides[k]);
    }
    if is_blockable(shape, sides) {
        assert forall|k: int| 0 <= k < shape.len() implies c[k] == shape[k] by {
            assert(shape[k] % sides[k] == 0 || shape[k] < sides[k]);
        }
        assert(c =~= shape);
    }
    if c == shape {
        assert forall|k: int| 0 <= k < shape.len() implies #[trigger] shape[k] % sides[k] == 0
            || shape[k] < sides[k] by {
            assert(c[k] == shape[k]);
        }
    }
}

/// A product grows strictly with any of its factors.
proof fn lemma_product_strict(low: Seq<int>, high: Seq<int>)
    requires
        low.len() == high.len(),
        all_positive(low),
        forall|k: int| 0 <= k < low.len() ==> low[k] <= #[trigger] high[k],
    ensures
        product(low) <= product(high),
        product(low) == product(high) ==> low == high,
    decreases low.len(),
{
    if low.len() == 0 {
        assert(low =~= high);
    } else {
        let a: Seq<int> = low.skip(1);
        let b: Seq<int> = high.skip(1);
        assert(all_positive(a)) by {
            assert forall|k: int| 0 <= k < a.len() implies #[trigger] a[k] >= 1 by {
                assert(a[k] == low[k + 1]);
            }
        }
        assert forall|k: int| 0 <= k < a.len() implies a[k] <= #[trigger] b[k] by {
            assert(b[k] == high[k + 1]);
        }
        lemma_product_strict(a, b);
        lemma_product_positive(a);
        assert(low[0] <= high[0]);
        assert(low[0] >= 1);
        assert(low[0] * product(a) <= high[0] * product(b)) by (nonlinear_arith)
            requires
                1 <= low[0] <= high[0],
                1 <= product(a) <= product(b),
        ;
        if product(low) == product(high) {
            assert(low[0] == high[0] && product(a) == product(b)) by (nonlinear_arith)
                requires
                    1 <= low[0] <= high[0],
                    1 <= product(a) <= product(b),
                    low[0] * product(a) == high[0] * product(b),
            ;
            assert forall|k: int| 0 <= k < low.len() implies low[k] == high[k] by {
                if k > 0 {
                    assert(a[k - 1] == b[k - 1]);
                }
            }
            assert(low =~= high);
        }
    }
}

/// The first `2 * k` interleaved dimensions count what blocks cover in the first `k` dimensions.
pub proof fn lemma_interleaved_take(shape: Seq<int>, sides: Seq<int>, k: int)
    requires
        shape.len() == sides.len(),
        0 <= k <= shape.len(),
    ensures
        product(interleaved(shape, sides).take(2 * k)) == product(covered(shape, sides).take(k)),
        k < shape.len() ==> product(interleaved(shape, sides).take(2 * k + 1)) == product(
            covered(shape, sides).take(k),
        ) * ceil_div(shape[k], sides[k]),
    decreases k,
{
    let inter: Seq<int> = interleaved(shape, sides);
    let cov: Seq<int> = covered(shape, sides);
    if k == 0 {
        assert(inter.take(0) =~= cov.take(0));
    } else {
        lemma_interleaved_take(shape, sides, k - 1);
        lemma_product_take(inter, 2 * k - 2);
        lemma_product_take(inter, 2 * k - 1);
        lemma_product_take(cov, k - 1);
        let p: int = product(cov.take(k - 1));
        let n: int = ceil_div(shape[k - 1], sides[k - 1]);
        let b: int = block_len(shape[k - 1], sides[k - 1]);
        assert((2 * k - 2) / 2 == k - 1 && (2 * k - 1) / 2 == k - 1);
        assert(inter[2 * k - 2] == n);
        assert(inter[2 * k - 1] == b);
        assert((p * n) * b == p * (n * b)) by (nonlinear_arith);
    }
    if k < shape.len() {
        lemma_product_take(inter, 2 * k);
        assert(inter[2 * k] == ceil_div(shape[k], sides[k]));
    }
}

/// Rounding a quotient up.
proof fn lemma_ceil_div(size: int, side: int)
    requires
        size >= 1,
        side >= 1,
    ensures
        ceil_div(size, side) == if size % side == 0 {
            size / side
        } else {
            size / side + 1
        },
        ceil_div(size, side) <= size,
{
    let n: int = ceil_div(size, side);
    vstd::arithmetic::div_mod::lemma_fundamental_div_mod(size + side - 1, side);
    vstd::arithmetic::div_mod::lemma_mod_bound(size + side - 1, side);
    vstd::arithmetic::div_mod::lemma_fundamental_div_mod(size, side);
    vstd::arithmetic::div_mod::lemma_mod_bound(size, side);
    let r: int = (size + side - 1) % side;
    let q: int = size / side;
    let m: int = size % side;
    assert(n == if m == 0 {
        q
    } else {
        q + 1
    }) by (nonlinear_arith)
        requires
            size + side - 1 == side * n + r,
            0 <= r < side,
            size == side * q + m,
            0 <= m < side,
    ;
    assert(n <= size) by (nonlinear_arith)
        requires
            size + side - 1 == side * n + r,
            0 <= r < side,
            size >= 1,
            side >= 1,
    ;
}

/// A tensor can be cut into blocks just where each of its dimensions is a multiple of the side of a
/// block or smaller than it.
pub proof fn law_blockable(shape: Seq<usize>, sides: Seq<u8>)
    requires
        shape.len() == sides.len(),
    ensures
        is_blockable(as_dims(shape), as_sides(sides)) <==> forall|k: int|
            0 <= k < shape.len() ==> (#[trigger] shape[k] as int % sides[k] as int == 0 || shape[k]
                < sides[k]),
{
    let s: Seq<int> = as_dims(shape);
    let b: Seq<int> = as_sides(sides);
    assert forall|k: int| 0 <= k < shape.len() implies s[k] == #[trigger] shape[k] && b[k]
        == sides[k] by {}
    if is_blockable(s, b) {
        assert forall|k: int| 0 <= k < shape.len() implies (#[trigger] shape[k] as int
            % sides[k] as int == 0 || shape[k] < sides[k]) by {
            assert(s[k] % b[k] == 0 || s[k] < b[k]);
        }
    }
    if forall|k: int|
        0 <= k < shape.len() ==> (#[trigger] shape[k] as int % sides[k] as int == 0 || shape[k]
            < sides[k]) {
        assert forall|k: int| 0 <= k < s.len() implies (#[trigger] s[k] % b[k] == 0 || s[k]
            < b[k]) by {
            assert(shape[k] as int % sides[k] as int == 0 || shape[k] < sides[k]);
        }
    }
}

/// Under the dimensions of a blocked tensor, each dimension is split in two: how many blocks there
/// are, and how long each of them is. The length is the side of a block, or the dimension where it
/// is smaller.
pub proof fn law_reshaped(shape: Seq<usize>, sides: Seq<u8>, dims: Seq<usize>)
    requires
        shape.len() == sides.len(),
        all_positive(as_dims(shape)),
        all_positive(as_sides(sides)),
        is_blockable(as_dims(shape), as_sides(sides)),
        as_dims(dims) == interleaved(as_dims(shape), as_sides(sides)),
    ensures
        dims.len() == 2 * shape.len(),
        forall|k: int|
            0 <= k < shape.len() ==> {
                &&& dims[2 * k] * dims[2 * k + 1] == #[trigger] shape[k]
                &&& dims[2 * k + 1] == if sides[k] < shape[k] {
                    sides[k] as int
                } else {
                    shape[k] as int
                }
            },
{
    let s: Seq<int> = as_dims(shape);
    let b: Seq<int> = as_sides(sides);
    let d: Seq<int> = as_dims(dims);
    assert(d.len() == dims.len());
    assert forall|k: int| 0 <= k < shape.len() implies ({
        &&& dims[2 * k] * dims[2 * k + 1] == #[trigger] shape[k]
        &&& dims[2 * k + 1] == if sides[k] < shape[k] {
            sides[k] as int
        } else {
            shape[k] as int
        }
    }) by {
        assert(s[k] >= 1 && b[k] >= 1);
        lemma_covered_dim(s[k], b[k]);
        assert((2 * k) / 2 == k && (2 * k + 1) / 2 == k);
        assert(d[2 * k] == dims[2 * k] && d[2 * k + 1] == dims[2 * k + 1]);
    }
}

/// The dimensions under which each block of a tensor has dimensions of its own, or `None` where
/// some dimension is neither a multiple of the side of a block nor smaller than it.
pub fn block_reshape(shape: &[usize], sides: &[u8]) -> (reshape: Option<Vec<usize>>)
    requires
        shape@.len() == sides@.len(),
        all_positive(as_dims(shape@)),
        all_positive(as_sides(sides@)),
        product(as_dims(shape@)) <= usize::MAX,
    ensures
        reshape is Some <==> is_blockable(as_dims(shape@), as_sides(sides@)),
        reshape matches Some(dims) ==> as_dims(dims@) == interleaved(
            as_dims(shape@),
            as_sides(sides@),
        ),
        reshape is Some <==> forall|k: int|
            0 <= k < shape@.len() ==> (#[trigger] shape@[k] as int % sides@[k] as int == 0
                || shape@[k] < sides@[k]),
        reshape matches Some(dims) ==> {
            &&& dims@.len() == 2 * shape@.len()
            &&& forall|k: int|
                0 <= k < shape@.len() ==> {
                    &&& dims@[2 * k] * dims@[2 * k + 1] == #[trigger] shape@[k]
                    &&& dims@[2 * k + 1] == if sides@[k] < shape@[k] {
                        sides@[k] as int
                    } else {
                        shape@[k] as int
                    }
                }
        },
{
    let ghost s: Seq<int> = as_dims(shape@);
    let ghost b: Seq<int> = as_sides(sides@);
    let ghost inter: Seq<int> = interleaved(s, b);
    let mut reshape: Vec<usize> = Vec::new();
    let mut k: usize = 0;
    while k < shape.len()
        invariant
            shape@.len() == sides@.len(),
            s == as_dims(shape@),
            b == as_sides(sides@),
            all_positive(s),
            all_positive(b),
            inter == interleaved(s, b),
            k <= shape@.len(),
            reshape@.len() == 2 * k,
            forall|i: int| 0 <= i < 2 * k ==> reshape@[i] == #[trigger] inter[i],
            forall|i: int| 0 <= i < 2 * k ==> #[trigger] inter[i] >= 1,
        decreases shape@.len() - k,
    {
        let size: usize = shape[k];
        let side: usize = sides[k] as usize;
        proof {
            assert(s[k as int] == size);
            assert(b[k as int] == side);
            lemma_covered_dim(size as int, side as int);
            lemma_ceil_div(size as int, side as int);
            assert((2 * k) / 2 == k && (2 * k + 1) / 2 == k);
            assert(inter[2 * k] == ceil_div(size as int, side as int));
            assert(inter[2 * k + 1] == block_len(size as int, side as int));
        }
        let blocks: usize = if size % side == 0 {
            size / side
        } else {
            size / side + 1
        };
        let actual: usize = if side < size {
            side
        } else {
            size
        };
        reshape.push(blocks);
        reshape.push(actual);
        k = k + 1;
    }
    assert(as_dims(reshape@) =~= inter);
    assert(all_positive(inter));
    proof {
        lemma_covered(s, b);
        lemma_product_strict(s, covered(s, b));
        lemma_interleaved_take(s, b, s.len() as int);
        assert(inter.take(2 * (s.len() as int)) =~= inter);
        assert(covered(s, b).take(s.len() as int) =~= covered(s, b));
        law_blockable(shape@, sides@);
        if is_blockable(s, b) {
            law_reshaped(shape@, sides@, reshape@);
        }
    }
    match (checked_num_elements(reshape.as_slice()), checked_num_elements(shape)) {
        (Some(reshape_numel), Some(numel)) => {
            if reshape_numel == numel {
                Some(reshape)
            } else {
                None
            }
        },
        _ => None,
    }
}

/// The block of an element is one of the blocks.
pub proof fn lemma_block_in_shape(shape: Seq<int>, sides: Seq<int>, m: int, index: Seq<int>)
    requires
        all_positive(shape),
        all_positive(sides),
        shape.len() == sides.len(),
        0 <= m <= shape.len(),
        in_shape(shape.skip(m), index),
    ensures
        in_shape(num_blocks(shape, sides).skip(m), block_of(index, sides.skip(m))),
{
    let blocks: Seq<int> = num_blocks(shape, sides).skip(m);
    let block: Seq<int> = block_of(index, sides.skip(m));
    assert forall|j: int| 0 <= j < blocks.len() implies 0 <= #[trigger] block[j] < blocks[j] by {
        let x: int = index[j];
        let size: int = shape[m + j];
        let side: int = sides[m + j];
        assert(side >= 1);
        assert(0 <= x < shape.skip(m)[j]);
        vstd::arithmetic::div_mod::lemma_fundamental_div_mod(size + side - 1, side);
        vstd::arithmetic::div_mod::lemma_mod_bound(size + side - 1, side);
        vstd::arithmetic::div_mod::lemma_fundamental_div_mod(x, side);
        vstd::arithmetic::div_mod::lemma_mod_bound(x, side);
        let n: int = ceil_div(size, side);
        let r: int = (size + side - 1) % side;
        let y: int = x / side;
        let z: int = x % side;
        assert(0 <= y < n) by (nonlinear_arith)
            requires
                size + side - 1 == side * n + r,
                0 <= r < side,
                x == side * y + z,
                0 <= z < side,
                0 <= x < size,
        ;
    }
}

} // verus!
