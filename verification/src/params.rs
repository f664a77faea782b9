//! The parameters that map a range of floats to quantized values.
use vstd::prelude::*;

use crate::backend::{is_lower, Backend, BackendTypes, QuantizationParametersPrimitive};
use crate::scheme::{QuantMode, QuantScheme, QuantValue};
use crate::tensor::{BoolDType, Tensor};

verus! {

/// The greater of the absolute values of two elements; the first where they cannot be told apart.
pub open spec fn greatest_abs<B: BackendTypes>(min: B::Elem, max: B::Elem) -> B::Elem {
    if is_lower::<B>(B::abs(min), B::abs(max)) {
        B::abs(max)
    } else {
        B::abs(min)
    }
}

/// The number of steps from the least to the greatest quantized value.
pub open spec fn num_steps(value: QuantValue) -> int {
    value.high() - value.low()
}

/// The scale with which the quantized range covers the interval from `-x` to `x`, where `x` is the
/// greater of the absolute values of both ends.
pub open spec fn symmetric_scale<B: BackendTypes>(
    value: QuantValue,
    min: B::Elem,
    max: B::Elem,
) -> B::Elem {
    B::over(B::times(greatest_abs::<B>(min, max), 2), num_steps(value))
}

/// The scale with which the quantized range is as wide as the interval from `min` to `max`.
pub open spec fn affine_scale<B: BackendTypes>(
    value: QuantValue,
    min: B::Elem,
    max: B::Elem,
) -> B::Elem {
    B::over(B::minus(max, min), num_steps(value))
}

/// The bias with which the least quantized value stands for `min`.
pub open spec fn affine_bias<B: BackendTypes>(
    value: QuantValue,
    min: B::Elem,
    max: B::Elem,
) -> B::Elem {
    B::minus(min, B::times(affine_scale::<B>(value, min, max), value.low()))
}

/// The symmetric scale of each range.
pub open spec fn symmetric_scales<B: BackendTypes>(value: QuantValue) -> spec_fn(
    B::Elem,
    B::Elem,
) -> B::Elem {
    |min: B::Elem, max: B::Elem| symmetric_scale::<B>(value, min, max)
}

/// The affine scale of each range.
pub open spec fn affine_scales<B: BackendTypes>(value: QuantValue) -> spec_fn(
    B::Elem,
    B::Elem,
) -> B::Elem {
    |min: B::Elem, max: B::Elem| affine_scale::<B>(value, min, max)
}

/// The affine bias of each range.
pub open spec fn affine_biases<B: BackendTypes>(value: QuantValue) -> spec_fn(
    B::Elem,
    B::Elem,
) -> B::Elem {
    |min: B::Elem, max: B::Elem| affine_bias::<B>(value, min, max)
}

/// `out` holds `f(x, y)` for the elements `x` of `min` and `y` of `max`.
pub open spec fn is_zipped<E>(
    f: spec_fn(E, E) -> E,
    min: Tensor<E>,
    max: Tensor<E>,
    out: Tensor<E>,
) -> bool {
    &&& out.shape == min.shape
    &&& out.data.len() == min.data.len()
    &&& forall|i: int|
        0 <= i < min.data.len() ==> #[trigger] out.data[i] == f(min.data[i], max.data[i])
}

/// The scales, and for affine schemes the biases, with which values between `min` and `max` are
/// quantized.
pub fn compute_q_params<B: Backend>(
    scheme: &QuantScheme,
    min: B::FloatTensorPrimitive,
    max: B::FloatTensorPrimitive,
) -> (params: QuantizationParametersPrimitive<B::FloatTensorPrimitive>)
    requires
        B::float_view(min).wf(),
        B::float_view(max).wf(),
        B::float_view(min).shape == B::float_view(max).shape,
    ensures
        scheme.mode == QuantMode::Symmetric ==> {
            &&& params.biases is None
            &&& is_zipped(
                symmetric_scales::<B>(scheme.value),
                B::float_view(min),
                B::float_view(max),
                B::float_view(params.scales),
            )
        },
        scheme.mode == QuantMode::Affine ==> {
            &&& params.biases is Some
            &&& is_zipped(
                affine_scales::<B>(scheme.value),
                B::float_view(min),
                B::float_view(max),
                B::float_view(params.scales),
            )
            &&& is_zipped(
                affine_biases::<B>(scheme.value),
                B::float_view(min),
                B::float_view(max),
                B::float_view(params.biases->0),
            )
        },
        B::float_view(params.scales).shape == B::float_view(min).shape,
        B::float_view(params.scales).data.len() == B::float_view(min).data.len(),
        scheme.mode == QuantMode::Symmetric ==> params.biases is None && forall|i: int|
            0 <= i < B::float_view(min).data.len() ==> {
                let x: B::Elem = B::abs(B::float_view(min).data[i]);
                let y: B::Elem = B::abs(B::float_view(max).data[i]);
                let alpha: B::Elem = if !B::is_nan(x) && !B::is_nan(y) && B::order(x) < B::order(
                    y,
                ) {
                    y
                } else {
                    x
                };
                #[trigger] B::float_view(params.scales).data[i] == B::over(
                    B::times(alpha, 2),
                    scheme.value.high() - scheme.value.low(),
                )
            },
        scheme.mode == QuantMode::Affine ==> (params.biases matches Some(biases) && {
            &&& B::float_view(biases).shape == B::float_view(min).shape
            &&& B::float_view(biases).data.len() == B::float_view(min).data.len()
            &&& forall|i: int|
                0 <= i < B::float_view(min).data.len() ==> #[trigger] B::float_view(
                    params.scales,
                ).data[i] == B::over(
                    B::minus(B::float_view(max).data[i], B::float_view(min).data[i]),
                    scheme.value.high() - scheme.value.low(),
                )
            &&& forall|i: int|
                0 <= i < B::float_view(min).data.len() ==> #[trigger] B::float_view(biases).data[i]
                    == B::minus(
                    B::float_view(min).data[i],
                    B::times(B::float_view(params.scales).data[i], scheme.value.low()),
                )
        }),
{
    // Quantized range `[a, b]`
    let (a, b): (i32, i32) = scheme.value.range();
    match scheme.mode {
        QuantMode::Symmetric => {
            let device: B::Device = B::float_device(&min);
            let bool_dtype: BoolDType = B::get_device_settings(&device).bool_dtype;
            let min_abs: B::FloatTensorPrimitive = B::float_abs(min);
            let max_abs: B::FloatTensorPrimitive = B::float_abs(max);
            let mask: B::BoolTensorPrimitive = B::float_lower(
                B::float_clone(&min_abs),
                B::float_clone(&max_abs),
                bool_dtype,
            );
            let values_range: B::FloatTensorPrimitive = B::float_mul_scalar(
                B::float_mask_where(min_abs, mask, max_abs),
                2,
            );
            QuantizationParametersPrimitive {
                scales: B::float_div_scalar(values_range, b - a),
                biases: None,
            }
        },
        QuantMode::Affine => {
            let width: B::FloatTensorPrimitive = B::float_sub(max, B::float_clone(&min));
            let scale: B::FloatTensorPrimitive = B::float_div_scalar(width, b - a);
            let offset: B::FloatTensorPrimitive = B::float_mul_scalar(B::float_clone(&scale), a);
            let bias: B::FloatTensorPrimitive = B::float_sub(min, offset);
            QuantizationParametersPrimitive { scales: scale, biases: Some(bias) }
        },
    }
}

} // verus!
