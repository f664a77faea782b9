//! The operations that a tensor backend provides.
use vstd::prelude::*;

use crate::scheme::{QuantPropagation, QuantScheme};
use crate::shape::{as_dims, product};
use crate::tensor::{
    is_least, is_least_along, is_reduced_shape, is_sum_along, matmul_shape, matmul_shapes,
    BoolDType, DeviceSettings, Elements, FloatDType, IntDType, QTensor, Slice, Tensor, TensorData,
};

verus! {

/// A tensor that is either a float tensor or a quantized one.
pub enum TensorPrimitive<F, Q> {
    Float(F),
    QFloat(Q),
}

/// The parameters with which a tensor is quantized: scales, and for affine schemes biases.
pub struct QuantizationParametersPrimitive<T> {
    pub scales: T,
    pub biases: Option<T>,
}

/// A change of the layout of a quantized tensor.
pub enum Layout {
    /// The same elements under other dimensions.
    Reshape(Seq<int>),
    /// Two dimensions exchanged.
    SwapDims(int, int),
    /// The dimensions in another order.
    Permute(Seq<int>),
    /// The order reversed along some dimensions.
    Flip(Seq<int>),
    /// A part along each dimension.
    Slice(Seq<Slice>),
    /// Dimensions of length one repeated.
    Expand(Seq<int>),
}

/// The tensors of a backend and what they hold.
pub trait BackendTypes: Sized {
    /// The elements of float tensors.
    type Elem;

    /// A float tensor.
    type FloatTensorPrimitive;

    /// A tensor of truth values.
    type BoolTensorPrimitive;

    /// A tensor of integers.
    type IntTensorPrimitive;

    /// A quantized tensor.
    type QuantizedTensorPrimitive;

    /// Where tensors live.
    type Device;

    /// What a float tensor holds.
    spec fn float_view(tensor: Self::FloatTensorPrimitive) -> Tensor<Self::Elem>;

    /// What a tensor of truth values holds.
    spec fn bool_view(tensor: Self::BoolTensorPrimitive) -> Tensor<bool>;

    /// What a tensor of integers holds.
    spec fn int_view(tensor: Self::IntTensorPrimitive) -> Tensor<int>;

    /// What a quantized tensor holds.
    spec fn q_view(tensor: Self::QuantizedTensorPrimitive) -> QTensor<Self::Elem>;

    /// The device of a float tensor.
    spec fn float_location(tensor: Self::FloatTensorPrimitive) -> Self::Device;

    /// The device of a quantized tensor.
    spec fn q_location(tensor: Self::QuantizedTensorPrimitive) -> Self::Device;

    /// The device can be set to these element types.
    spec fn is_set_to(device: Self::Device, settings: DeviceSettings) -> bool;

    /// The element is not a number.
    spec fn is_nan(e: Self::Elem) -> bool;

    /// The place of a number among the numbers: equal numbers have the same place, and of two
    /// others the smaller one has the smaller place.
    spec fn order(e: Self::Elem) -> int;

    /// The absolute value of an element.
    spec fn abs(e: Self::Elem) -> Self::Elem;

    /// An element times a whole number, rounded as the backend rounds.
    spec fn times(e: Self::Elem, k: int) -> Self::Elem;

    /// An element divided by a whole number, rounded as the backend rounds.
    spec fn over(e: Self::Elem, k: int) -> Self::Elem;

    /// The difference of two elements, rounded as the backend rounds.
    spec fn minus(x: Self::Elem, y: Self::Elem) -> Self::Elem;

    /// `x` is the sum of `terms`, as accurately as the backend computes it.
    spec fn is_sum(terms: Elements<Self::Elem>, x: Self::Elem) -> bool;

    /// `out` is the matrix product of `lhs` and `rhs`, as accurately as the backend computes it.
    spec fn is_product(
        lhs: Tensor<Self::Elem>,
        rhs: Tensor<Self::Elem>,
        out: Tensor<Self::Elem>,
    ) -> bool;

    /// `out` is the matrix product of `lhs` and `rhs`, of which at least one is quantized, as
    /// accurately as the backend computes it.
    spec fn is_q_product(
        lhs: TensorPrimitive<Tensor<Self::Elem>, QTensor<Self::Elem>>,
        rhs: TensorPrimitive<Tensor<Self::Elem>, QTensor<Self::Elem>>,
        out: TensorPrimitive<Tensor<Self::Elem>, QTensor<Self::Elem>>,
    ) -> bool;

    /// `out` is `tensor` quantized under `scheme` with the given parameters.
    spec fn is_quantized(
        tensor: Tensor<Self::Elem>,
        scheme: QuantScheme,
        params: QuantizationParametersPrimitive<Tensor<Self::Elem>>,
        out: QTensor<Self::Elem>,
    ) -> bool;

    /// `out` is `tensor` quantized under `scheme` with parameters that the backend found.
    spec fn is_quantized_dynamic(
        tensor: Tensor<Self::Elem>,
        scheme: QuantScheme,
        out: QTensor<Self::Elem>,
    ) -> bool;

    /// `out` is the quantized tensor that `data` describes.
    spec fn is_loaded(data: TensorData, out: QTensor<Self::Elem>) -> bool;

    /// `out` is `tensor` after the change `layout`.
    spec fn is_laid_out(
        tensor: QTensor<Self::Elem>,
        layout: Layout,
        out: QTensor<Self::Elem>,
    ) -> bool;

    /// `out` holds the elements of `tensor` at `indices` along `dim`.
    spec fn is_gathered(
        dim: int,
        tensor: QTensor<Self::Elem>,
        indices: Tensor<int>,
        out: QTensor<Self::Elem>,
    ) -> bool;

    /// `out` holds the slices of `tensor` that `indices` name along `dim`.
    spec fn is_selected(
        tensor: QTensor<Self::Elem>,
        dim: int,
        indices: Tensor<int>,
        out: QTensor<Self::Elem>,
    ) -> bool;

    /// `out` holds the positions of the greatest elements of `tensor` along `dim`.
    spec fn is_argmax(
        tensor: QTensor<Self::Elem>,
        dim: int,
        out_dtype: IntDType,
        out: Tensor<int>,
    ) -> bool;

    /// `out` holds the positions of the least elements of `tensor` along `dim`.
    spec fn is_argmin(
        tensor: QTensor<Self::Elem>,
        dim: int,
        out_dtype: IntDType,
        out: Tensor<int>,
    ) -> bool;
}

/// Sorts the elements of a backend from the least to the greatest.
pub open spec fn ascending<B: BackendTypes>() -> spec_fn(B::Elem) -> int {
    |e: B::Elem| B::order(e)
}

/// Sorts the elements of a backend from the greatest to the least.
pub open spec fn descending<B: BackendTypes>() -> spec_fn(B::Elem) -> int {
    |e: B::Elem| -B::order(e)
}

/// The sums of a backend.
pub open spec fn sums<B: BackendTypes>() -> spec_fn(Seq<B::Elem>, B::Elem) -> bool {
    |terms: Seq<B::Elem>, x: B::Elem| B::is_sum(terms, x)
}

/// Every element of the tensor is a number.
pub open spec fn all_numbers<B: BackendTypes>(tensor: Tensor<B::Elem>) -> bool {
    forall|i: int| 0 <= i < tensor.data.len() ==> !B::is_nan(#[trigger] tensor.data[i])
}

/// Both elements are numbers, and the first is smaller than the second.
pub open spec fn is_lower<B: BackendTypes>(x: B::Elem, y: B::Elem) -> bool {
    !B::is_nan(x) && !B::is_nan(y) && B::order(x) < B::order(y)
}

/// The device can be set to hold truth values in this type.
pub open spec fn is_bool_dtype<B: BackendTypes>(device: B::Device, dtype: BoolDType) -> bool {
    exists|settings: DeviceSettings| #[trigger]
        B::is_set_to(device, settings) && settings.bool_dtype == dtype
}

/// What a tensor of either kind holds.
pub open spec fn primitive_view<B: BackendTypes>(
    tensor: TensorPrimitive<B::FloatTensorPrimitive, B::QuantizedTensorPrimitive>,
) -> TensorPrimitive<Tensor<B::Elem>, QTensor<B::Elem>> {
    match tensor {
        TensorPrimitive::Float(f) => TensorPrimitive::Float(B::float_view(f)),
        TensorPrimitive::QFloat(q) => TensorPrimitive::QFloat(B::q_view(q)),
    }
}

/// What quantization parameters hold.
pub open spec fn params_view<B: BackendTypes>(
    params: QuantizationParametersPrimitive<B::FloatTensorPrimitive>,
) -> QuantizationParametersPrimitive<Tensor<B::Elem>> {
    QuantizationParametersPrimitive {
        scales: B::float_view(params.scales),
        biases: match params.biases {
            Some(b) => Some(B::float_view(b)),
            None => None,
        },
    }
}

/// The dimensions of a tensor of either kind.
pub open spec fn primitive_shape<E>(tensor: TensorPrimitive<Tensor<E>, QTensor<E>>) -> Seq<int> {
    match tensor {
        TensorPrimitive::Float(f) => f.shape,
        TensorPrimitive::QFloat(q) => q.shape,
    }
}

/// The tensor is a float tensor, or operations on it give float tensors.
pub open spec fn inhibits<E>(tensor: TensorPrimitive<Tensor<E>, QTensor<E>>) -> bool {
    tensor matches TensorPrimitive::QFloat(q) ==> q.propagation == QuantPropagation::Inhibit
}

/// A tensor backend.
pub trait Backend: BackendTypes {
    /// The dimensions of a float tensor, which holds as many elements as they say.
    fn float_shape(tensor: &Self::FloatTensorPrimitive) -> (shape: Vec<usize>)
        ensures
            as_dims(shape@) == Self::float_view(*tensor).shape,
            Self::float_view(*tensor).wf(),
    ;

    /// Another tensor that holds the same.
    fn float_clone(tensor: &Self::FloatTensorPrimitive) -> (out: Self::FloatTensorPrimitive)
        ensures
            Self::float_view(out) == Self::float_view(*tensor),
            Self::float_location(out) == Self::float_location(*tensor),
    ;

    /// The device of a float tensor.
    fn float_device(tensor: &Self::FloatTensorPrimitive) -> (device: Self::Device)
        ensures
            device == Self::float_location(*tensor),
    ;

    /// The element types that a device is set to, which may change.
    fn get_device_settings(device: &Self::Device) -> (settings: DeviceSettings)
        ensures
            Self::is_set_to(*device, settings),
    ;

    /// The same elements under other dimensions.
    fn float_reshape(tensor: Self::FloatTensorPrimitive, shape: Vec<usize>) -> (out:
        Self::FloatTensorPrimitive)
        requires
            product(as_dims(shape@)) == product(Self::float_view(tensor).shape),
        ensures
            Self::float_view(out).shape == as_dims(shape@),
            Self::float_view(out).data == Self::float_view(tensor).data,
    ;

    /// The least element.
    fn float_min(tensor: Self::FloatTensorPrimitive) -> (out: Self::FloatTensorPrimitive)
        requires
            Self::float_view(tensor).data.len() > 0,
        ensures
            Self::float_view(out).shape == seq![1int],
            Self::float_view(out).data.len() == 1,
            all_numbers::<Self>(Self::float_view(tensor)) ==> is_least(
                ascending::<Self>(),
                Self::float_view(tensor).data,
                Self::float_view(out).data[0],
            ),
    ;

    /// The greatest element.
    fn float_max(tensor: Self::FloatTensorPrimitive) -> (out: Self::FloatTensorPrimitive)
        requires
            Self::float_view(tensor).data.len() > 0,
        ensures
            Self::float_view(out).shape == seq![1int],
            Self::float_view(out).data.len() == 1,
            all_numbers::<Self>(Self::float_view(tensor)) ==> is_least(
                descending::<Self>(),
                Self::float_view(tensor).data,
                Self::float_view(out).data[0],
            ),
    ;

    /// The least elements along a dimension, which stays with length one or goes.
    fn float_min_dim(tensor: Self::FloatTensorPrimitive, dim: usize) -> (out:
        Self::FloatTensorPrimitive)
        requires
            dim < Self::float_view(tensor).shape.len(),
            Self::float_view(tensor).shape[dim as int] > 0,
        ensures
            is_reduced_shape(
                Self::float_view(tensor).shape,
                dim as int,
                Self::float_view(out).shape,
            ),
            Self::float_view(out).data.len() == product(Self::float_view(out).shape),
            all_numbers::<Self>(Self::float_view(tensor)) ==> is_least_along(
                ascending::<Self>(),
                Self::float_view(tensor),
                dim as int,
                Self::float_view(out),
            ),
    ;

    /// The greatest elements along a dimension, which stays with length one or goes.
    fn float_max_dim(tensor: Self::FloatTensorPrimitive, dim: usize) -> (out:
        Self::FloatTensorPrimitive)
        requires
            dim < Self::float_view(tensor).shape.len(),
            Self::float_view(tensor).shape[dim as int] > 0,
        ensures
            is_reduced_shape(
                Self::float_view(tensor).shape,
                dim as int,
                Self::float_view(out).shape,
            ),
            Self::float_view(out).data.len() == product(Self::float_view(out).shape),
            all_numbers::<Self>(Self::float_view(tensor)) ==> is_least_along(
                descending::<Self>(),
                Self::float_view(tensor),
                dim as int,
                Self::float_view(out),
            ),
    ;

    /// The sums along a dimension, which stays with length one or goes.
    fn float_sum_dim(tensor: Self::FloatTensorPrimitive, dim: usize) -> (out:
        Self::FloatTensorPrimitive)
        requires
            dim < Self::float_view(tensor).shape.len(),
        ensures
            is_reduced_shape(
                Self::float_view(tensor).shape,
                dim as int,
                Self::float_view(out).shape,
            ),
            Self::float_view(out).data.len() == product(Self::float_view(out).shape),
            is_sum_along(
                sums::<Self>(),
                Self::float_view(tensor),
                dim as int,
                Self::float_view(out),
            ),
    ;

    /// The absolute values.
    fn float_abs(tensor: Self::FloatTensorPrimitive) -> (out: Self::FloatTensorPrimitive)
        ensures
            Self::float_view(out).shape == Self::float_view(tensor).shape,
            Self::float_view(out).data == Self::float_view(tensor).data.map_values(
                |e: Self::Elem| Self::abs(e),
            ),
            Self::float_location(out) == Self::float_location(tensor),
    ;

    /// Where the elements of `lhs` are smaller than those of `rhs`, in the type that the device is
    /// set to for truth values.
    fn float_lower(
        lhs: Self::FloatTensorPrimitive,
        rhs: Self::FloatTensorPrimitive,
        out_dtype: BoolDType,
    ) -> (out: Self::BoolTensorPrimitive)
        requires
            Self::float_view(lhs).shape == Self::float_view(rhs).shape,
            is_bool_dtype::<Self>(Self::float_location(lhs), out_dtype),
        ensures
            Self::bool_view(out).shape == Self::float_view(lhs).shape,
            Self::bool_view(out).data == Seq::new(
                Self::float_view(lhs).data.len(),
                |i: int|
                    is_lower::<Self>(
                        Self::float_view(lhs).data[i],
                        Self::float_view(rhs).data[i],
                    ),
            ),
    ;

    /// The elements of `value` where `mask` holds, those of `tensor` elsewhere.
    fn float_mask_where(
        tensor: Self::FloatTensorPrimitive,
        mask: Self::BoolTensorPrimitive,
        value: Self::FloatTensorPrimitive,
    ) -> (out: Self::FloatTensorPrimitive)
        requires
            Self::bool_view(mask).shape == Self::float_view(tensor).shape,
            Self::float_view(value).shape == Self::float_view(tensor).shape,
        ensures
            Self::float_view(out).shape == Self::float_view(tensor).shape,
            Self::float_view(out).data == Seq::new(
                Self::float_view(tensor).data.len(),
                |i: int|
                    if Self::bool_view(mask).data[i] {
                        Self::float_view(value).data[i]
                    } else {
                        Self::float_view(tensor).data[i]
                    },
            ),
    ;

    /// Each element times a whole number.
    fn float_mul_scalar(lhs: Self::FloatTensorPrimitive, rhs: i32) -> (out:
        Self::FloatTensorPrimitive)
        ensures
            Self::float_view(out).shape == Self::float_view(lhs).shape,
            Self::float_view(out).data == Self::float_view(lhs).data.map_values(
                |e: Self::Elem| Self::times(e, rhs as int),
            ),
    ;

    /// Each element divided by a whole number.
    fn float_div_scalar(lhs: Self::FloatTensorPrimitive, rhs: i32) -> (out:
        Self::FloatTensorPrimitive)
        ensures
            Self::float_view(out).shape == Self::float_view(lhs).shape,
            Self::float_view(out).data == Self::float_view(lhs).data.map_values(
                |e: Self::Elem| Self::over(e, rhs as int),
            ),
    ;

    /// The differences of the elements.
    fn float_sub(lhs: Self::FloatTensorPrimitive, rhs: Self::FloatTensorPrimitive) -> (out:
        Self::FloatTensorPrimitive)
        requires
            Self::float_view(lhs).shape == Self::float_view(rhs).shape,
        ensures
            Self::float_view(out).shape == Self::float_view(lhs).shape,
            Self::float_view(out).data == Seq::new(
                Self::float_view(lhs).data.len(),
                |i: int|
                    Self::minus(Self::float_view(lhs).data[i], Self::float_view(rhs).data[i]),
            ),
    ;

    /// The tensor with its two innermost dimensions exchanged.
    fn float_transpose(tensor: Self::FloatTensorPrimitive) -> (out: Self::FloatTensorPrimitive)
        requires
            Self::float_view(tensor).shape.len() >= 2,
        ensures
            Self::float_view(out) == Self::float_view(tensor).transposed(),
    ;

    /// The matrix product.
    fn float_matmul(lhs: Self::FloatTensorPrimitive, rhs: Self::FloatTensorPrimitive) -> (out:
        Self::FloatTensorPrimitive)
        requires
            matmul_shapes(Self::float_view(lhs).shape, Self::float_view(rhs).shape),
        ensures
            Self::float_view(out).shape == matmul_shape(
                Self::float_view(lhs).shape,
                Self::float_view(rhs).shape,
            ),
            Self::is_product(
                Self::float_view(lhs),
                Self::float_view(rhs),
                Self::float_view(out),
            ),
    ;

    /// The dimensions of a quantized tensor.
    fn q_shape(tensor: &Self::QuantizedTensorPrimitive) -> (shape: Vec<usize>)
        ensures
            as_dims(shape@) == Self::q_view(*tensor).shape,
    ;

    /// Another quantized tensor that holds the same.
    fn q_clone(tensor: &Self::QuantizedTensorPrimitive) -> (out: Self::QuantizedTensorPrimitive)
        ensures
            Self::q_view(out) == Self::q_view(*tensor),
    ;

    /// What operations on a quantized tensor hand on.
    fn q_propagation(tensor: &Self::QuantizedTensorPrimitive) -> (propagation: QuantPropagation)
        ensures
            propagation == Self::q_view(*tensor).propagation,
    ;

    /// The quantized tensor that `data` describes, on a device.
    fn q_from_data(data: TensorData, device: &Self::Device) -> (out:
        Self::QuantizedTensorPrimitive)
        ensures
            Self::is_loaded(data, Self::q_view(out)),
            Self::q_location(out) == *device,
    ;

    /// Quantizes with given parameters.
    fn quantize(
        tensor: Self::FloatTensorPrimitive,
        scheme: &QuantScheme,
        qparams: QuantizationParametersPrimitive<Self::FloatTensorPrimitive>,
    ) -> (out: Self::QuantizedTensorPrimitive)
        ensures
            Self::is_quantized(
                Self::float_view(tensor),
                *scheme,
                params_view::<Self>(qparams),
                Self::q_view(out),
            ),
    ;

    /// Quantizes with parameters found on the fly.
    fn quantize_dynamic(tensor: Self::FloatTensorPrimitive, scheme: &QuantScheme) -> (out:
        Self::QuantizedTensorPrimitive)
        ensures
            Self::is_quantized_dynamic(
                Self::float_view(tensor),
                *scheme,
                Self::q_view(out),
            ),
    ;

    /// The float tensor that a quantized tensor stands for.
    fn dequantize(tensor: Self::QuantizedTensorPrimitive, dtype: FloatDType) -> (out:
        Self::FloatTensorPrimitive)
        ensures
            Self::float_view(out) == Self::q_view(tensor).dequantized(dtype),
    ;

    /// The matrix product of tensors of which at least one is quantized. It is a float tensor
    /// where no operand propagates its quantization.
    fn q_matmul(
        lhs: TensorPrimitive<Self::FloatTensorPrimitive, Self::QuantizedTensorPrimitive>,
        rhs: TensorPrimitive<Self::FloatTensorPrimitive, Self::QuantizedTensorPrimitive>,
    ) -> (out: TensorPrimitive<Self::FloatTensorPrimitive, Self::QuantizedTensorPrimitive>)
        requires
            lhs is QFloat || rhs is QFloat,
            matmul_shapes(
                primitive_shape(primitive_view::<Self>(lhs)),
                primitive_shape(primitive_view::<Self>(rhs)),
            ),
        ensures
            primitive_shape(primitive_view::<Self>(out)) == matmul_shape(
                primitive_shape(primitive_view::<Self>(lhs)),
                primitive_shape(primitive_view::<Self>(rhs)),
            ),
            Self::is_q_product(
                primitive_view::<Self>(lhs),
                primitive_view::<Self>(rhs),
                primitive_view::<Self>(out),
            ),
            inhibits(primitive_view::<Self>(lhs)) && inhibits(primitive_view::<Self>(rhs))
                ==> out is Float,
    ;

    /// The device of a quantized tensor.
    fn q_device(tensor: &Self::QuantizedTensorPrimitive) -> (device: Self::Device)
        ensures
            device == Self::q_location(*tensor),
    ;

    /// The same quantized tensor on another device.
    fn q_to_device(tensor: Self::QuantizedTensorPrimitive, device: &Self::Device) -> (out:
        Self::QuantizedTensorPrimitive)
        ensures
            Self::q_view(out) == Self::q_view(tensor),
            Self::q_location(out) == *device,
    ;

    /// The same elements under other dimensions.
    fn q_reshape(tensor: Self::QuantizedTensorPrimitive, shape: Vec<usize>) -> (out:
        Self::QuantizedTensorPrimitive)
        ensures
            Self::is_laid_out(
                Self::q_view(tensor),
                Layout::Reshape(as_dims(shape@)),
                Self::q_view(out),
            ),
    ;

    /// Two dimensions exchanged.
    fn q_swap_dims(tensor: Self::QuantizedTensorPrimitive, dim1: usize, dim2: usize) -> (out:
        Self::QuantizedTensorPrimitive)
        ensures
            Self::is_laid_out(
                Self::q_view(tensor),
                Layout::SwapDims(dim1 as int, dim2 as int),
                Self::q_view(out),
            ),
    ;

    /// The dimensions in another order.
    fn q_permute(tensor: Self::QuantizedTensorPrimitive, axes: &[usize]) -> (out:
        Self::QuantizedTensorPrimitive)
        ensures
            Self::is_laid_out(
                Self::q_view(tensor),
                Layout::Permute(as_dims(axes@)),
                Self::q_view(out),
            ),
    ;

    /// The order reversed along some dimensions.
    fn q_flip(tensor: Self::QuantizedTensorPrimitive, axes: &[usize]) -> (out:
        Self::QuantizedTensorPrimitive)
        ensures
            Self::is_laid_out(
                Self::q_view(tensor),
                Layout::Flip(as_dims(axes@)),
                Self::q_view(out),
            ),
    ;

    /// A part along each dimension.
    fn q_slice(tensor: Self::QuantizedTensorPrimitive, slices: &[Slice]) -> (out:
        Self::QuantizedTensorPrimitive)
        ensures
            Self::is_laid_out(
                Self::q_view(tensor),
                Layout::Slice(slices@),
                Self::q_view(out),
            ),
    ;

    /// Dimensions of length one repeated.
    fn q_expand(tensor: Self::QuantizedTensorPrimitive, shape: Vec<usize>) -> (out:
        Self::QuantizedTensorPrimitive)
        ensures
            Self::is_laid_out(
                Self::q_view(tensor),
                Layout::Expand(as_dims(shape@)),
                Self::q_view(out),
            ),
    ;

    /// The elements at the given positions along a dimension.
    fn q_gather(
        dim: usize,
        tensor: Self::QuantizedTensorPrimitive,
        indices: Self::IntTensorPrimitive,
    ) -> (out: Self::QuantizedTensorPrimitive)
        ensures
            Self::is_gathered(
                dim as int,
                Self::q_view(tensor),
                Self::int_view(indices),
                Self::q_view(out),
            ),
    ;

    /// The slices at the given positions along a dimension.
    fn q_select(
        tensor: Self::QuantizedTensorPrimitive,
        dim: usize,
        indices: Self::IntTensorPrimitive,
    ) -> (out: Self::QuantizedTensorPrimitive)
        ensures
            Self::is_selected(
                Self::q_view(tensor),
                dim as int,
                Self::int_view(indices),
                Self::q_view(out),
            ),
    ;

    /// The positions of the greatest elements along a dimension.
    fn q_argmax(tensor: Self::QuantizedTensorPrimitive, dim: usize, out_dtype: IntDType) -> (out:
        Self::IntTensorPrimitive)
        ensures
            Self::is_argmax(
                Self::q_view(tensor),
                dim as int,
                out_dtype,
                Self::int_view(out),
            ),
    ;

    /// The positions of the least elements along a dimension.
    fn q_argmin(tensor: Self::QuantizedTensorPrimitive, dim: usize, out_dtype: IntDType) -> (out:
        Self::IntTensorPrimitive)
        ensures
            Self::is_argmin(
                Self::q_view(tensor),
                dim as int,
                out_dtype,
                Self::int_view(out),
            ),
    ;
}

} // verus!
