//! Mathematical models of tensors.
use vstd::prelude::*;

use crate::scheme::{QuantPropagation, QuantScheme};
use crate::shape::{all_natural, lemma_product_concat, product, ravel};

verus! {

/// A whole number of any size, which only ghost code has.
pub type Whole = int;

/// A sequence of elements, which only ghost code has.
pub type Elements<E> = Seq<E>;

/// A dense tensor: its dimensions and its elements in row-major order.
#[verifier::ext_equal]
pub struct Tensor<E> {
    pub shape: Seq<int>,
    pub data: Seq<E>,
}

impl<E> Tensor<E> {
    /// The tensor holds as many elements as its dimensions say.
    pub open spec fn wf(self) -> bool {
        &&& all_natural(self.shape)
        &&& self.data.len() == product(self.shape)
    }

    /// The element that `index` names.
    pub open spec fn at(self, index: Seq<int>) -> E {
        self.data[ravel(self.shape, index)]
    }

    /// The elements that differ from each other in the coordinate `dim` only: those whose
    /// coordinates before `dim` count `outer` elements, and those after it `inner`.
    pub open spec fn fibre(self, dim: int, outer: int, inner: int) -> Seq<E> {
        let n: int = self.shape[dim];
        let stride: int = product(self.shape.skip(dim + 1));
        Seq::new(n as nat, |j: int| self.data[(outer * n + j) * stride + inner])
    }

    /// The tensor with its two innermost dimensions exchanged.
    pub open spec fn transposed(self) -> Tensor<E> {
        let rank: int = self.shape.len() as int;
        let m: int = self.shape[rank - 2];
        let n: int = self.shape[rank - 1];
        Tensor {
            shape: transposed_shape(self.shape),
            data: Seq::new(
                self.data.len(),
                |f: int| self.data[(f / (m * n)) * (m * n) + (f % m) * n + (f % (m * n)) / m],
            ),
        }
    }
}

/// The dimensions with the two innermost ones exchanged.
pub open spec fn transposed_shape(shape: Seq<int>) -> Seq<int> {
    let rank: int = shape.len() as int;
    shape.update(rank - 2, shape[rank - 1]).update(rank - 1, shape[rank - 2])
}

/// A quantized tensor: its dimensions, its scheme, what operations on it hand on, and the floats
/// that its values stand for in each float type.
#[verifier::ext_equal]
pub struct QTensor<E> {
    pub shape: Seq<int>,
    pub scheme: QuantScheme,
    pub propagation: QuantPropagation,
    pub decoded: spec_fn(FloatDType) -> Seq<E>,
}

impl<E> QTensor<E> {
    /// The float tensor that this tensor stands for.
    pub open spec fn dequantized(self, dtype: FloatDType) -> Tensor<E> {
        Tensor { shape: self.shape, data: (self.decoded)(dtype) }
    }
}

/// Types of float tensors.
#[derive(Clone, Copy, Debug, PartialEq, Eq, Structural)]
pub enum FloatDType {
    F64,
    F32,
    Flex32,
    F16,
    BF16,
}

/// Types of integer tensors.
#[derive(Clone, Copy, Debug, PartialEq, Eq, Structural)]
pub enum IntDType {
    I64,
    I32,
    I16,
    I8,
    U64,
    U32,
    U16,
    U8,
}

/// Types of tensors of truth values.
#[derive(Clone, Copy, Debug, PartialEq, Eq, Structural)]
pub enum BoolDType {
    Native,
    U8,
    U32,
}

/// Types of tensor elements.
#[derive(Clone, Copy, Debug)]
pub enum DType {
    F64,
    F32,
    Flex32,
    F16,
    BF16,
    I64,
    I32,
    I16,
    I8,
    U64,
    U32,
    U16,
    U8,
    Bool(BoolDType),
    QFloat(QuantScheme),
}

/// The element types that a device is set to.
#[derive(Clone, Copy, Debug)]
pub struct DeviceSettings {
    pub float_dtype: FloatDType,
    pub int_dtype: IntDType,
    pub bool_dtype: BoolDType,
}

/// Raw tensor data.
pub struct TensorData {
    pub bytes: Vec<u8>,
    pub shape: Vec<usize>,
    pub dtype: DType,
}

/// A part of a dimension: from `start` up to `end`, every `step`-th element. Negative bounds count
/// from the end.
#[derive(Clone, Copy, Debug)]
pub struct Slice {
    pub start: isize,
    pub end: Option<isize>,
    pub step: isize,
}

/// `x` is one of the elements of `s`, and none has a smaller key.
pub open spec fn is_least<E>(key: spec_fn(E) -> int, s: Seq<E>, x: E) -> bool {
    &&& s.contains(x)
    &&& forall|j: int| 0 <= j < s.len() ==> key(x) <= key(#[trigger] s[j])
}

/// `out` is what is left of `shape` after the dimension `dim` was reduced: the dimension stays
/// with length one, or it is gone.
pub open spec fn is_reduced_shape(shape: Seq<int>, dim: int, out: Seq<int>) -> bool {
    out == shape.update(dim, 1) || out == shape.remove(dim)
}

/// A reduced dimension no longer counts.
pub proof fn lemma_reduced_product(shape: Seq<int>, dim: int, out: Seq<int>)
    requires
        0 <= dim < shape.len(),
        is_reduced_shape(shape, dim, out),
    ensures
        product(out) == product(shape.take(dim)) * product(shape.skip(dim + 1)),
        product(shape) == product(shape.take(dim)) * (shape[dim] * product(shape.skip(dim + 1))),
        out.len() >= dim,
        out.take(dim) == shape.take(dim),
        product(out.skip(dim)) == product(shape.skip(dim + 1)),
{
    let head: Seq<int> = shape.take(dim);
    let tail: Seq<int> = shape.skip(dim + 1);
    assert(shape =~= head + shape.skip(dim));
    assert(shape.skip(dim).skip(1) =~= tail);
    lemma_product_concat(head, shape.skip(dim));
    if out == shape.update(dim, 1) {
        assert(out.skip(dim).skip(1) =~= tail);
        assert(product(out.skip(dim)) == 1 * product(tail));
    } else {
        assert(out.skip(dim) =~= tail);
    }
    assert(out.take(dim) =~= head);
    assert(out =~= head + out.skip(dim));
    lemma_product_concat(head, out.skip(dim));
}

/// Each element of `out` is the least of the elements of `t` along `dim`.
pub open spec fn is_least_along<E>(
    key: spec_fn(E) -> int,
    t: Tensor<E>,
    dim: int,
    out: Tensor<E>,
) -> bool {
    let stride: int = product(t.shape.skip(dim + 1));
    forall|outer: int, inner: int|
        0 <= outer < product(t.shape.take(dim)) && 0 <= inner < stride ==> is_least(
            key,
            #[trigger] t.fibre(dim, outer, inner),
            out.data[outer * stride + inner],
        )
}

/// Each element of `out` is the sum, by the relation `adds`, of the elements of `t` along `dim`.
pub open spec fn is_sum_along<E>(
    adds: spec_fn(Seq<E>, E) -> bool,
    t: Tensor<E>,
    dim: int,
    out: Tensor<E>,
) -> bool {
    let stride: int = product(t.shape.skip(dim + 1));
    forall|outer: int, inner: int|
        0 <= outer < product(t.shape.take(dim)) && 0 <= inner < stride ==> adds(
            #[trigger] t.fibre(dim, outer, inner),
            out.data[outer * stride + inner],
        )
}

/// Two tensors with these dimensions can be multiplied as matrices: they have the same number of
/// dimensions, the innermost ones match, and each of the others is equal or one of the two is one.
pub open spec fn matmul_shapes(lhs: Seq<int>, rhs: Seq<int>) -> bool {
    let rank: int = lhs.len() as int;
    &&& rank >= 2
    &&& rhs.len() == rank
    &&& lhs[rank - 1] == rhs[rank - 2]
    &&& forall|k: int|
        0 <= k < rank - 2 ==> (#[trigger] lhs[k] == rhs[k] || lhs[k] == 1 || rhs[k] == 1)
}

/// The dimensions of the product of two tensors with these dimensions.
pub open spec fn matmul_shape(lhs: Seq<int>, rhs: Seq<int>) -> Seq<int> {
    let rank: int = lhs.len() as int;
    Seq::new(
        rank as nat,
        |k: int|
            if k == rank - 1 {
                rhs[k]
            } else if k == rank - 2 || rhs[k] == 1 {
                lhs[k]
            } else {
                rhs[k]
            },
    )
}

} // verus!
