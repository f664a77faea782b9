//! Row-major shapes: element counts and positions.
use vstd::prelude::*;

verus! {

/// The dimensions of an executable shape as mathematical integers.
pub open spec fn as_dims(shape: Seq<usize>) -> Seq<int> {
    shape.map_values(|d: usize| d as int)
}

/// The number of elements of a tensor with the dimensions `dims`.
pub open spec fn product(dims: Seq<int>) -> int
    decreases dims.len(),
{
    if dims.len() == 0 {
        1
    } else {
        dims[0] * product(dims.skip(1))
    }
}

/// `index` names one element of a tensor with the dimensions `dims`.
pub open spec fn in_shape(dims: Seq<int>, index: Seq<int>) -> bool {
    &&& index.len() == dims.len()
    &&& forall|k: int| 0 <= k < dims.len() ==> 0 <= #[trigger] index[k] < dims[k]
}

/// The position of the element `index` in row-major order.
pub open spec fn ravel(dims: Seq<int>, index: Seq<int>) -> int
    decreases dims.len(),
{
    if dims.len() == 0 {
        0
    } else {
        index[0] * product(dims.skip(1)) + ravel(dims.skip(1), index.skip(1))
    }
}

/// Every dimension is at least one.
pub open spec fn all_positive(dims: Seq<int>) -> bool {
    forall|k: int| 0 <= k < dims.len() ==> #[trigger] dims[k] >= 1
}

/// No dimension is negative.
pub open spec fn all_natural(dims: Seq<int>) -> bool {
    forall|k: int| 0 <= k < dims.len() ==> #[trigger] dims[k] >= 0
}

pub proof fn lemma_product_positive(dims: Seq<int>)
    requires
        all_positive(dims),
    ensures
        product(dims) >= 1,
    decreases dims.len(),
{
    if dims.len() > 0 {
        lemma_product_positive(dims.skip(1));
        assert(dims[0] * product(dims.skip(1)) >= 1) by (nonlinear_arith)
            requires
                dims[0] >= 1,
                product(dims.skip(1)) >= 1,
        ;
    }
}

pub proof fn lemma_product_natural(dims: Seq<int>)
    requires
        all_natural(dims),
    ensures
        product(dims) >= 0,
    decreases dims.len(),
{
    if dims.len() > 0 {
        lemma_product_natural(dims.skip(1));
        assert(dims[0] * product(dims.skip(1)) >= 0) by (nonlinear_arith)
            requires
                dims[0] >= 0,
                product(dims.skip(1)) >= 0,
        ;
    }
}

/// The count of a concatenation is the product of the counts.
pub proof fn lemma_product_concat(a: Seq<int>, b: Seq<int>)
    ensures
        product(a + b) == product(a) * product(b),
    decreases a.len(),
{
    if a.len() == 0 {
        assert(a + b =~= b);
    } else {
        assert((a + b).skip(1) =~= a.skip(1) + b);
        lemma_product_concat(a.skip(1), b);
        assert(a[0] * (product(a.skip(1)) * product(b)) == (a[0] * product(a.skip(1))) * product(b))
            by (nonlinear_arith);
    }
}

/// Counting dimension by dimension from the left.
pub proof fn lemma_product_take(dims: Seq<int>, k: int)
    requires
        0 <= k < dims.len(),
    ensures
        product(dims.take(k + 1)) == product(dims.take(k)) * dims[k],
{
    let last: Seq<int> = seq![dims[k]];
    assert(dims.take(k + 1) =~= dims.take(k) + last);
    lemma_product_concat(dims.take(k), last);
    assert(last.skip(1) =~= Seq::<int>::empty());
    assert(product(last) == dims[k]) by {
        assert(product(last.skip(1)) == 1);
    }
}

/// A valid index lies before the end.
pub proof fn lemma_ravel_bound(dims: Seq<int>, index: Seq<int>)
    requires
        in_shape(dims, index),
    ensures
        0 <= ravel(dims, index) < product(dims),
    decreases dims.len(),
{
    if dims.len() > 0 {
        let tail: Seq<int> = dims.skip(1);
        let rest: Seq<int> = index.skip(1);
        assert(in_shape(tail, rest)) by {
            assert forall|k: int| 0 <= k < tail.len() implies 0 <= #[trigger] rest[k] < tail[k] by {
                assert(rest[k] == index[k + 1]);
                assert(tail[k] == dims[k + 1]);
            }
        }
        lemma_ravel_bound(tail, rest);
        let r: int = ravel(tail, rest);
        let p: int = product(tail);
        assert(0 <= index[0] * p + r < dims[0] * p) by (nonlinear_arith)
            requires
                0 <= index[0] < dims[0],
                0 <= r < p,
        ;
    }
}

/// Prepending a coordinate to an index of the remaining dimensions.
pub proof fn lemma_ravel_cons(dims: Seq<int>, k: int, x: int, rest: Seq<int>)
    requires
        0 <= k < dims.len(),
        0 <= x < dims[k],
        in_shape(dims.skip(k + 1), rest),
    ensures
        in_shape(dims.skip(k), seq![x] + rest),
        ravel(dims.skip(k), seq![x] + rest) == x * product(dims.skip(k + 1)) + ravel(
            dims.skip(k + 1),
            rest,
        ),
        product(dims.skip(k)) == dims[k] * product(dims.skip(k + 1)),
{
    let tail: Seq<int> = dims.skip(k);
    let index: Seq<int> = seq![x] + rest;
    assert(tail.skip(1) =~= dims.skip(k + 1));
    assert(index.skip(1) =~= rest);
    assert forall|j: int| 0 <= j < tail.len() implies 0 <= #[trigger] index[j] < tail[j] by {
        if j > 0 {
            assert(index[j] == rest[j - 1]);
            assert(tail[j] == dims.skip(k + 1)[j - 1]);
        }
    }
}

/// Executable dimensions are the same numbers.
pub proof fn law_dims(shape: Seq<usize>, k: int)
    requires
        0 <= k < shape.len(),
    ensures
        as_dims(shape).len() == shape.len(),
        as_dims(shape)[k] == shape[k],
{
}

/// Elements lie in row-major order: one step along a dimension passes as many elements as the
/// dimensions after it count, and the first element lies at the start.
pub proof fn law_row_major(dims: Seq<int>, index: Seq<int>, k: int)
    requires
        index.len() == dims.len(),
        0 <= k < dims.len(),
    ensures
        ravel(dims, index.update(k, index[k] + 1)) == ravel(dims, index) + product(
            dims.skip(k + 1),
        ),
        (forall|j: int| 0 <= j < index.len() ==> #[trigger] index[j] == 0) ==> ravel(dims, index)
            == 0,
    decreases dims.len(),
{
    let next: Seq<int> = index.update(k, index[k] + 1);
    let p: int = product(dims.skip(1));
    if k == 0 {
        assert(next.skip(1) =~= index.skip(1));
        assert((index[0] + 1) * p == index[0] * p + p) by (nonlinear_arith);
    } else {
        assert(next.skip(1) =~= index.skip(1).update(k - 1, index.skip(1)[k - 1] + 1));
        assert(dims.skip(1).skip(k) =~= dims.skip(k + 1));
        law_row_major(dims.skip(1), index.skip(1), k - 1);
    }
    if forall|j: int| 0 <= j < index.len() ==> #[trigger] index[j] == 0 {
        lemma_ravel_zero(dims, index);
    }
}

proof fn lemma_ravel_zero(dims: Seq<int>, index: Seq<int>)
    requires
        index.len() == dims.len(),
        forall|j: int| 0 <= j < index.len() ==> #[trigger] index[j] == 0,
    ensures
        ravel(dims, index) == 0,
    decreases dims.len(),
{
    if dims.len() > 0 {
        let rest: Seq<int> = index.skip(1);
        assert forall|j: int| 0 <= j < rest.len() implies #[trigger] rest[j] == 0 by {
            assert(rest[j] == index[j + 1]);
        }
        lemma_ravel_zero(dims.skip(1), rest);
        assert(index[0] * product(dims.skip(1)) == 0) by (nonlinear_arith)
            requires
                index[0] == 0,
        ;
    }
}

/// Multiplies the dimensions of `shape`, or gives up where the product does not fit.
pub fn checked_num_elements(shape: &[usize]) -> (count: Option<usize>)
    requires
        all_positive(as_dims(shape@)),
    ensures
        count is Some <==> product(as_dims(shape@)) <= usize::MAX,
        count matches Some(n) ==> n == product(as_dims(shape@)),
{
    let ghost dims: Seq<int> = as_dims(shape@);
    let mut count: usize = 1;
    let mut k: usize = 0;
    while k < shape.len()
        invariant
            dims == as_dims(shape@),
            all_positive(dims),
            k <= shape@.len(),
            count == product(dims.take(k as int)),
        decreases shape@.len() - k,
    {
        proof {
            lemma_product_take(dims, k as int);
            let rest: Seq<int> = dims.skip(k + 1);
            lemma_product_concat(dims.take(k + 1), rest);
            assert(dims.take(k + 1) + rest =~= dims);
            assert(all_positive(rest)) by {
                assert forall|j: int| 0 <= j < rest.len() implies #[trigger] rest[j] >= 1 by {
                    assert(rest[j] == dims[j + k + 1]);
                }
            }
            lemma_product_positive(rest);
            assert(all_positive(dims.take(k + 1))) by {
                assert forall|j: int| 0 <= j < k + 1 implies #[trigger] dims.take(k + 1)[j]
                    >= 1 by {
                    assert(dims.take(k + 1)[j] == dims[j]);
                }
            }
            lemma_product_positive(dims.take(k + 1));
            assert(product(dims) >= product(dims.take(k + 1))) by (nonlinear_arith)
                requires
                    product(dims) == product(dims.take(k + 1)) * product(rest),
                    product(rest) >= 1,
                    product(dims.take(k + 1)) >= 1,
            ;
            assert(dims[k as int] == shape@[k as int]);
        }
        match count.checked_mul(shape[k]) {
            Some(next) => {
                count = next;
            },
            None => {
                return None;
            },
        }
        k = k + 1;
    }
    assert(dims.take(k as int) =~= dims);
    Some(count)
}

} // verus!
