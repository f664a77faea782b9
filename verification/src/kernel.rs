//! Which buffers the quantization kernels of a device work on.
use vstd::prelude::*;

use crate::scheme::{QuantMode, QuantScheme};
use crate::tensor::DType;

verus! {

/// The identity of a device.
#[derive(Clone, Copy, Debug, PartialEq, Eq, Structural)]
pub struct DeviceId {
    pub type_id: u16,
    pub index_id: u32,
}

/// A part of device memory: its handle, the dimensions and the type of what lies there.
pub struct Binding<H> {
    pub handle: H,
    pub shape: Vec<usize>,
    pub dtype: DType,
    pub device: DeviceId,
}

/// A tensor in device memory. A quantized tensor keeps its scales, and perhaps biases, apart from
/// its values, whose dimensions are those of the storage.
pub struct CubeTensor<H> {
    pub shape: Vec<usize>,
    pub dtype: DType,
    pub device: DeviceId,
    pub values: Binding<H>,
    pub scales: Option<Binding<H>>,
    pub biases: Option<Binding<H>>,
}

impl<H> CubeTensor<H> {
    /// A quantized tensor has scales.
    pub open spec fn wf(self) -> bool {
        self.dtype is QFloat ==> self.scales is Some
    }
}

/// A float tensor that is to be allocated.
pub struct EmptyTensor {
    pub shape: Vec<usize>,
    pub dtype: DType,
    pub device: DeviceId,
}

/// A quantized tensor that is to be allocated.
pub struct EmptyQTensor {
    pub shape: Vec<usize>,
    pub scheme: QuantScheme,
    pub device: DeviceId,
}

/// A launch of the dequantization kernel.
pub struct DequantizeLaunch<H> {
    /// The tensor that the kernel writes; it is the result.
    pub output: EmptyTensor,
    pub values: Binding<H>,
    pub params: Binding<H>,
    pub bias: Option<Binding<H>>,
    pub scheme: QuantScheme,
    pub dtype: DType,
}

/// What is done to dequantize a tensor.
pub enum Dequantize<H> {
    /// The tensor is not quantized: it is the result.
    Unchanged(CubeTensor<H>),
    /// The kernel is launched.
    Launch(DequantizeLaunch<H>),
}

/// What is done to dequantize `tensor`: an affine scheme reads the biases too.
pub open spec fn dequantize_action<H>(tensor: CubeTensor<H>, dtype: DType) -> Dequantize<H> {
    match tensor.dtype {
        DType::QFloat(scheme) => Dequantize::Launch(
            DequantizeLaunch {
                output: EmptyTensor { shape: tensor.shape, dtype, device: tensor.device },
                values: tensor.values,
                params: tensor.scales->0,
                bias: match scheme.mode {
                    QuantMode::Affine => tensor.biases,
                    QuantMode::Symmetric => None,
                },
                scheme,
                dtype,
            },
        ),
        _ => Dequantize::Unchanged(tensor),
    }
}

/// Converts a tensor back to the type `dtype`.
pub fn dequantize<H>(tensor: CubeTensor<H>, dtype: DType) -> (action: Dequantize<H>)
    requires
        tensor.wf(),
    ensures
        action == dequantize_action(tensor, dtype),
        !(tensor.dtype is QFloat) ==> action == Dequantize::Unchanged(tensor),
        tensor.dtype matches DType::QFloat(scheme) ==> (action matches Dequantize::Launch(launch)
            && {
            &&& launch.output.shape == tensor.shape
            &&& launch.output.dtype == dtype
            &&& launch.output.device == tensor.device
            &&& launch.values == tensor.values
            &&& tensor.scales == Some(launch.params)
            &&& launch.scheme == scheme
            &&& launch.dtype == dtype
            &&& scheme.mode == QuantMode::Affine ==> launch.bias == tensor.biases
            &&& scheme.mode == QuantMode::Symmetric ==> launch.bias is None
        }),
{
    let scheme: QuantScheme = match tensor.dtype {
        DType::QFloat(scheme) => scheme,
        _ => {
            return Dequantize::Unchanged(tensor);
        },
    };
    let output: EmptyTensor = EmptyTensor { shape: tensor.shape, dtype, device: tensor.device };
    let bias: Option<Binding<H>> = match scheme.mode {
        QuantMode::Affine => tensor.biases,
        QuantMode::Symmetric => None,
    };
    Dequantize::Launch(
        DequantizeLaunch {
            output,
            values: tensor.values,
            params: tensor.scales.unwrap(),
            bias,
            scheme,
            dtype,
        },
    )
}

/// A launch of the quantization kernel.
pub struct QuantizeLaunch<H> {
    pub input: Binding<H>,
    pub out_values: Binding<H>,
    pub scale: Binding<H>,
    pub out_params: Binding<H>,
    pub scheme: QuantScheme,
    pub dtype: DType,
    pub bias: Option<Binding<H>>,
    /// The biases that the kernel writes, which are to be allocated first.
    pub out_bias: Option<EmptyTensor>,
}

/// A quantization that waits for its output.
pub struct Quantize<H> {
    /// The tensor that is to be allocated. With the biases that the kernel writes, it is the
    /// result.
    pub output: EmptyQTensor,
    pub tensor: CubeTensor<H>,
    pub scale: CubeTensor<H>,
    pub bias: Option<CubeTensor<H>>,
}

impl<H> Quantize<H> {
    /// What is done to quantize `tensor` under `scheme` with the given parameters.
    pub open spec fn is_for(
        self,
        tensor: CubeTensor<H>,
        scheme: QuantScheme,
        scale: CubeTensor<H>,
        bias: Option<CubeTensor<H>>,
    ) -> bool {
        &&& self.output.shape@ == tensor.shape@
        &&& self.output.scheme == scheme
        &&& self.output.device == tensor.device
        &&& self.tensor == tensor
        &&& self.scale == scale
        &&& self.bias == bias
    }

    /// `output` is a tensor as it was to be allocated.
    pub open spec fn takes(self, output: CubeTensor<H>) -> bool {
        &&& output.wf()
        &&& output.dtype == DType::QFloat(self.output.scheme)
        &&& output.shape@ == self.output.shape@
        &&& output.device == self.output.device
    }

    /// `launch` reads the tensor and its parameters and writes to `output`. An affine scheme with
    /// biases writes them to a buffer of its own, with the dimensions and the type of the scales.
    pub open spec fn is_launch(self, output: CubeTensor<H>, launch: QuantizeLaunch<H>) -> bool {
        &&& launch.input == self.tensor.values
        &&& launch.out_values == output.values
        &&& launch.scale == self.scale.values
        &&& launch.out_params == output.scales->0
        &&& launch.scheme == self.output.scheme
        &&& launch.dtype == self.tensor.dtype
        &&& launch.bias == match self.bias {
            Some(bias) => Some(bias.values),
            None => None,
        }
        &&& launch.out_bias is Some <==> (self.bias is Some && self.output.scheme.mode
            == QuantMode::Affine)
        &&& launch.out_bias matches Some(empty) ==> {
            &&& empty.shape@ == (output.scales->0).shape@
            &&& empty.dtype == (output.scales->0).dtype
            &&& empty.device == (output.scales->0).device
        }
    }
}

/// Converts a tensor to the lower precision of a scheme, with given scales and perhaps biases.
pub fn quantize<H>(
    tensor: CubeTensor<H>,
    scheme: &QuantScheme,
    scale: CubeTensor<H>,
    bias: Option<CubeTensor<H>>,
) -> (action: Quantize<H>)
    ensures
        action.is_for(tensor, *scheme, scale, bias),
        action.tensor == tensor,
        action.scale == scale,
        action.bias == bias,
        action.output.shape@ == tensor.shape@,
        action.output.scheme == *scheme,
        action.output.device == tensor.device,
{
    let output: EmptyQTensor = EmptyQTensor {
        shape: tensor.shape.clone(),
        scheme: *scheme,
        device: tensor.device,
    };
    Quantize { output, tensor, scale, bias }
}

impl<H> Quantize<H> {
    /// Once the output was allocated, the kernel is launched on it. An affine scheme with biases
    /// needs another buffer first, for the biases: it has the dimensions and the type of the
    /// scales.
    pub fn allocated(self, output: CubeTensor<H>) -> (launch: QuantizeLaunch<H>)
        requires
            self.takes(output),
        ensures
            self.is_launch(output, launch),
            launch.input == self.tensor.values,
            launch.dtype == self.tensor.dtype,
            launch.scale == self.scale.values,
            launch.scheme == self.output.scheme,
            launch.out_values == output.values,
            output.scales == Some(launch.out_params),
            self.bias is None ==> launch.bias is None,
            self.bias matches Some(bias) ==> launch.bias == Some(bias.values),
            (self.bias is Some && self.output.scheme.mode == QuantMode::Affine)
                ==> launch.out_bias is Some,
            launch.out_bias matches Some(empty) ==> {
                &&& self.bias is Some
                &&& self.output.scheme.mode == QuantMode::Affine
                &&& empty.shape@ == launch.out_params.shape@
                &&& empty.dtype == launch.out_params.dtype
                &&& empty.device == launch.out_params.device
            },
    {
        let out_params: Binding<H> = output.scales.unwrap();
        let scheme: QuantScheme = self.output.scheme;
        let bias: Option<Binding<H>> = match self.bias {
            Some(bias) => Some(bias.values),
            None => None,
        };
        let out_bias: Option<EmptyTensor> = match (&bias, scheme.mode) {
            (Some(_), QuantMode::Affine) => Some(
                EmptyTensor {
                    shape: out_params.shape.clone(),
                    dtype: out_params.dtype,
                    device: out_params.device,
                },
            ),
            _ => None,
        };
        QuantizeLaunch {
            input: self.tensor.values,
            out_values: output.values,
            scale: self.scale.values,
            out_params,
            scheme,
            dtype: self.tensor.dtype,
            bias,
            out_bias,
        }
    }
}

/// `buffer` is what was planned: nothing, or a buffer with these dimensions and of this type.
pub open spec fn is_allocated<H>(plan: Option<EmptyTensor>, buffer: Option<Binding<H>>) -> bool {
    &&& plan is Some <==> buffer is Some
    &&& plan matches Some(empty) ==> {
        &&& (buffer->0).shape@ == empty.shape@
        &&& (buffer->0).dtype == empty.dtype
        &&& (buffer->0).device == empty.device
    }
}

/// `result` is `output` with the biases in `out_bias`.
pub open spec fn is_finished<H>(
    output: CubeTensor<H>,
    out_bias: Option<Binding<H>>,
    result: CubeTensor<H>,
) -> bool {
    &&& result.shape == output.shape
    &&& result.dtype == output.dtype
    &&& result.device == output.device
    &&& result.values == output.values
    &&& result.scales == output.scales
    &&& result.biases == out_bias
}

/// The quantized tensor: the output with the biases that the kernel wrote, where it wrote some.
pub fn finished<H>(output: CubeTensor<H>, out_bias: Option<Binding<H>>) -> (result: CubeTensor<H>)
    requires
        output.wf(),
        output.dtype is QFloat,
    ensures
        is_finished(output, out_bias, result),
        result.wf(),
        result.shape == output.shape,
        result.dtype == output.dtype,
        result.device == output.device,
        result.values == output.values,
        result.scales == output.scales,
        result.biases == out_bias,
{
    CubeTensor {
        shape: output.shape,
        dtype: output.dtype,
        device: output.device,
        values: output.values,
        scales: output.scales,
        biases: out_bias,
    }
}

/// Only a quantized tensor without scales is malformed.
pub proof fn law_well_formed<H>(tensor: CubeTensor<H>)
    ensures
        tensor.wf() <==> (tensor.dtype is QFloat ==> tensor.scales is Some),
{
}

/// A tensor that is not quantized comes back as it is. Any other is read from its own values and
/// scales, under its own scheme, into a new tensor with its dimensions on its device. That tensor
/// has the type that was asked for, and so has what the kernel computes.
pub proof fn law_dequantize<H>(tensor: CubeTensor<H>, dtype: DType)
    requires
        tensor.wf(),
    ensures
        !(tensor.dtype is QFloat) ==> dequantize_action(tensor, dtype) == Dequantize::Unchanged(
            tensor,
        ),
        tensor.dtype matches DType::QFloat(scheme) ==> (dequantize_action(tensor, dtype) matches
            Dequantize::Launch(launch) && {
            &&& launch.output.dtype == dtype
            &&& launch.dtype == dtype
            &&& launch.output.shape == tensor.shape
            &&& launch.output.device == tensor.device
            &&& launch.values == tensor.values
            &&& tensor.scales == Some(launch.params)
            &&& launch.scheme == scheme
            &&& scheme.mode == QuantMode::Affine ==> launch.bias == tensor.biases
            &&& scheme.mode == QuantMode::Symmetric ==> launch.bias is None
        }),
{
}

/// The type that is asked for decides nothing but types: the same tensor is read in the same way
/// for any two types, and each result has its own.
pub proof fn law_dequantize_types<H>(tensor: CubeTensor<H>, dtype1: DType, dtype2: DType)
    requires
        tensor.wf(),
        tensor.dtype is QFloat,
    ensures
        dequantize_action(tensor, dtype1) matches Dequantize::Launch(a) && (dequantize_action(
            tensor,
            dtype2,
        ) matches Dequantize::Launch(b) && {
            &&& a.values == b.values
            &&& a.params == b.params
            &&& a.bias == b.bias
            &&& a.scheme == b.scheme
            &&& a.output.shape == b.output.shape
            &&& a.output.device == b.output.device
            &&& a.dtype == dtype1 && a.output.dtype == dtype1
            &&& b.dtype == dtype2 && b.output.dtype == dtype2
        }),
{
}

/// What the quantization kernel is launched with, in terms of what `quantize` was given: it reads
/// the values of that tensor as elements of its type, the given scales and the given biases, under
/// the given scheme, and writes the values and the scales of the output. Biases are written just
/// where an affine scheme was given some, to a buffer like that of the scales.
pub proof fn law_quantize<H>(
    tensor: CubeTensor<H>,
    scheme: QuantScheme,
    scale: CubeTensor<H>,
    bias: Option<CubeTensor<H>>,
    action: Quantize<H>,
    output: CubeTensor<H>,
    launch: QuantizeLaunch<H>,
)
    requires
        action.is_for(tensor, scheme, scale, bias),
        action.takes(output),
        action.is_launch(output, launch),
    ensures
        launch.dtype == tensor.dtype,
        launch.input == tensor.values,
        launch.scale == scale.values,
        launch.scheme == scheme,
        launch.out_values == output.values,
        output.scales == Some(launch.out_params),
        output.shape@ == tensor.shape@,
        output.device == tensor.device,
        output.dtype == DType::QFloat(scheme),
        bias is None ==> launch.bias is None && launch.out_bias is None,
        bias matches Some(b) ==> {
            &&& launch.bias == Some(b.values)
            &&& launch.out_bias is Some <==> scheme.mode == QuantMode::Affine
        },
        launch.out_bias matches Some(empty) ==> {
            &&& empty.shape@ == launch.out_params.shape@
            &&& empty.dtype == launch.out_params.dtype
            &&& empty.device == launch.out_params.device
        },
{
}

/// Every output that was allocated as asked for is taken.
pub proof fn law_output_taken<H>(
    tensor: CubeTensor<H>,
    scheme: QuantScheme,
    scale: CubeTensor<H>,
    bias: Option<CubeTensor<H>>,
    action: Quantize<H>,
    output: CubeTensor<H>,
)
    requires
        action.is_for(tensor, scheme, scale, bias),
        output.scales is Some,
        output.dtype == DType::QFloat(scheme),
        output.shape@ == tensor.shape@,
        output.device == tensor.device,
    ensures
        action.takes(output),
{
}

/// Finishing attaches the written biases and changes nothing else.
pub proof fn law_finished<H>(
    output: CubeTensor<H>,
    out_bias: Option<Binding<H>>,
    result: CubeTensor<H>,
)
    requires
        is_finished(output, out_bias, result),
    ensures
        result.biases == out_bias,
        result == (CubeTensor { biases: out_bias, ..output }),
{
}

/// What dequantization reads is what quantization wrote: the same values and scales under the same
/// scheme and, for an affine scheme, the same biases, which are there where biases were given and
/// have the dimensions and the type of the scales. A symmetric scheme has no biases to read. The
/// dimensions are those of the tensor that was quantized.
pub proof fn law_read_back<H>(
    tensor: CubeTensor<H>,
    scheme: QuantScheme,
    scale: CubeTensor<H>,
    bias: Option<CubeTensor<H>>,
    action: Quantize<H>,
    output: CubeTensor<H>,
    launch: QuantizeLaunch<H>,
    out_bias: Option<Binding<H>>,
    result: CubeTensor<H>,
    dtype: DType,
)
    requires
        action.is_for(tensor, scheme, scale, bias),
        action.takes(output),
        action.is_launch(output, launch),
        is_allocated(launch.out_bias, out_bias),
        is_finished(output, out_bias, result),
    ensures
        result.wf(),
        dequantize_action(result, dtype) matches Dequantize::Launch(read) && {
            &&& read.values == launch.out_values
            &&& read.params == launch.out_params
            &&& read.scheme == launch.scheme
            &&& read.output.shape@ == tensor.shape@
            &&& read.output.device == tensor.device
            &&& read.output.dtype == dtype
            &&& read.dtype == dtype
            &&& read.bias == out_bias
            &&& read.bias is Some <==> (bias is Some && scheme.mode == QuantMode::Affine)
            &&& read.bias matches Some(b) ==> {
                &&& b.shape@ == read.params.shape@
                &&& b.dtype == read.params.dtype
            }
        },
{
}

} // verus!
