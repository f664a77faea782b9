//! Ranges, parameters and gradients on a small backend of double-precision tensors.
use std::collections::HashMap;

use burn_quant::autodiff::{
    Autodiff, AutodiffTensor, ComputingProperty, Graph, Matmul, NodeId, Operation, QMatmulFloatLhs,
    QMatmulFloatRhs, Requirement, Step,
};
use burn_quant::backend::{
    Backend, BackendTypes, Layout, QuantizationParametersPrimitive, TensorPrimitive,
};
use burn_quant::blocks::block_reshape;
use burn_quant::params::compute_q_params;
use burn_quant::range::compute_range;
use burn_quant::scheme::{
    BlockSize, Calibration, QuantLevel, QuantMode, QuantParam, QuantPropagation, QuantScheme,
    QuantStore, QuantValue,
};
use burn_quant::shape::checked_num_elements;
use burn_quant::tensor::{
    BoolDType, DType, DeviceSettings, Elements, FloatDType, IntDType, QTensor, Slice, Tensor,
    TensorData, Whole,
};

/// A backend whose reductions keep the reduced dimension with length one, or drop it.
struct Cpu<const KEEP: bool>;

type Kept = Cpu<true>;
type Dropped = Cpu<false>;

#[derive(Clone, Debug, PartialEq)]
struct Float {
    shape: Vec<usize>,
    data: Vec<f64>,
    device: u32,
}

#[derive(Clone, Debug, PartialEq)]
struct Truth {
    shape: Vec<usize>,
    data: Vec<bool>,
}

#[derive(Clone, Debug, PartialEq)]
struct Int {
    shape: Vec<usize>,
    data: Vec<i64>,
}

/// A quantized tensor: codes with one scale and one bias for each element, and the operations that
/// led to it.
#[derive(Clone, Debug)]
struct Quant {
    shape: Vec<usize>,
    codes: Vec<f64>,
    scales: Vec<f64>,
    biases: Vec<f64>,
    propagation: QuantPropagation,
    device: u32,
    trace: Vec<String>,
}

impl Quant {
    fn decoded(&self, dtype: FloatDType) -> Vec<f64> {
        let mut out = Vec::new();
        for i in 0..self.codes.len() {
            let x = self.codes[i] * self.scales[i] + self.biases[i];
            out.push(if dtype == FloatDType::F32 { x as f32 as f64 } else { x });
        }
        out
    }

    fn with(mut self, step: String) -> Quant {
        self.trace.push(step);
        self
    }
}

fn float(shape: &[usize], data: &[f64]) -> Float {
    Float { shape: shape.to_vec(), data: data.to_vec(), device: 0 }
}

fn reduce(t: &Float, dim: usize, keep: bool, pick: fn(f64, f64) -> f64) -> Float {
    let n = t.shape[dim];
    let inner: usize = t.shape[dim + 1..].iter().product();
    let outer: usize = t.shape[..dim].iter().product();
    let mut data = Vec::new();
    for o in 0..outer {
        for i in 0..inner {
            let mut x = t.data[o * n * inner + i];
            for j in 1..n {
                x = pick(x, t.data[(o * n + j) * inner + i]);
            }
            data.push(x);
        }
    }
    let mut shape = t.shape.clone();
    if keep {
        shape[dim] = 1;
    } else {
        shape.remove(dim);
    }
    Float { shape, data, device: t.device }
}

fn matmul(lhs: &Float, rhs: &Float) -> Float {
    let rank = lhs.shape.len();
    let (m, k, n) = (lhs.shape[rank - 2], lhs.shape[rank - 1], rhs.shape[rank - 1]);
    let mut shape = Vec::new();
    for d in 0..rank - 2 {
        shape.push(lhs.shape[d].max(rhs.shape[d]));
    }
    let batches: usize = shape.iter().product();
    let pick = |dims: &[usize], b: usize| -> usize {
        let mut rest = b;
        let mut index = 0;
        let mut stride = 1;
        for d in (0..shape.len()).rev() {
            let x = rest % shape[d];
            rest /= shape[d];
            if dims[d] != 1 {
                index += x * stride;
            }
            stride *= dims[d];
        }
        index
    };
    let mut data = Vec::new();
    for b in 0..batches {
        let (l, r) = (pick(&lhs.shape, b), pick(&rhs.shape, b));
        for i in 0..m {
            for j in 0..n {
                let mut x = 0.0;
                for p in 0..k {
                    x += lhs.data[(l * m + i) * k + p] * rhs.data[(r * k + p) * n + j];
                }
                data.push(x);
            }
        }
    }
    shape.push(m);
    shape.push(n);
    Float { shape, data, device: lhs.device }
}

fn transpose(t: &Float) -> Float {
    let rank = t.shape.len();
    let (m, n) = (t.shape[rank - 2], t.shape[rank - 1]);
    let mut data = Vec::new();
    for b in 0..t.data.len() / (m * n) {
        for j in 0..n {
            for i in 0..m {
                data.push(t.data[(b * m + i) * n + j]);
            }
        }
    }
    let mut shape = t.shape.clone();
    shape.swap(rank - 2, rank - 1);
    Float { shape, data, device: t.device }
}

/// Repeats each element of a range for the elements of its block.
fn spread(t: &Float, shape: &[usize], sides: &[usize]) -> Vec<f64> {
    if t.data.len() == 1 {
        return vec![t.data[0]; shape.iter().product()];
    }
    let total: usize = shape.iter().product();
    let mut out = Vec::new();
    for f in 0..total {
        let mut rest = f;
        let mut index = 0;
        let mut stride = 1;
        for d in (0..shape.len()).rev() {
            let x = rest % shape[d];
            rest /= shape[d];
            index += (x / sides[d]) * stride;
            stride *= t.shape[d];
        }
        out.push(t.data[index]);
    }
    out
}

fn ends(value: QuantValue) -> (f64, f64) {
    let (low, high) = value.range();
    (low as f64, high as f64)
}

/// Only the types matter here: the functions are ghost code.
impl<const KEEP: bool> BackendTypes for Cpu<KEEP> {
    type Elem = f64;
    type FloatTensorPrimitive = Float;
    type BoolTensorPrimitive = Truth;
    type IntTensorPrimitive = Int;
    type QuantizedTensorPrimitive = Quant;
    type Device = u32;

    fn float_view(_: Float) -> Tensor<f64> {
        unreachable!()
    }

    fn bool_view(_: Truth) -> Tensor<bool> {
        unreachable!()
    }

    fn int_view(_: Int) -> Tensor<Whole> {
        unreachable!()
    }

    fn q_view(_: Quant) -> QTensor<f64> {
        unreachable!()
    }

    fn float_location(_: Float) -> u32 {
        unreachable!()
    }

    fn q_location(_: Quant) -> u32 {
        unreachable!()
    }

    fn is_set_to(_: u32, _: DeviceSettings) -> bool {
        unreachable!()
    }

    fn is_nan(_: f64) -> bool {
        unreachable!()
    }

    fn order(_: f64) -> Whole {
        unreachable!()
    }

    fn abs(_: f64) -> f64 {
        unreachable!()
    }

    fn times(_: f64, _: Whole) -> f64 {
        unreachable!()
    }

    fn over(_: f64, _: Whole) -> f64 {
        unreachable!()
    }

    fn minus(_: f64, _: f64) -> f64 {
        unreachable!()
    }

    fn is_sum(_: Elements<f64>, _: f64) -> bool {
        unreachable!()
    }

    fn is_product(_: Tensor<f64>, _: Tensor<f64>, _: Tensor<f64>) -> bool {
        unreachable!()
    }

    fn is_q_product(
        _: TensorPrimitive<Tensor<f64>, QTensor<f64>>,
        _: TensorPrimitive<Tensor<f64>, QTensor<f64>>,
        _: TensorPrimitive<Tensor<f64>, QTensor<f64>>,
    ) -> bool {
        unreachable!()
    }

    fn is_quantized(
        _: Tensor<f64>,
        _: QuantScheme,
        _: QuantizationParametersPrimitive<Tensor<f64>>,
        _: QTensor<f64>,
    ) -> bool {
        unreachable!()
    }

    fn is_quantized_dynamic(_: Tensor<f64>, _: QuantScheme, _: QTensor<f64>) -> bool {
        unreachable!()
    }

    fn is_loaded(_: TensorData, _: QTensor<f64>) -> bool {
        unreachable!()
    }

    fn is_laid_out(_: QTensor<f64>, _: Layout, _: QTensor<f64>) -> bool {
        unreachable!()
    }

    fn is_gathered(_: Whole, _: QTensor<f64>, _: Tensor<Whole>, _: QTensor<f64>) -> bool {
        unreachable!()
    }

    fn is_selected(_: QTensor<f64>, _: Whole, _: Tensor<Whole>, _: QTensor<f64>) -> bool {
        unreachable!()
    }

    fn is_argmax(_: QTensor<f64>, _: Whole, _: IntDType, _: Tensor<Whole>) -> bool {
        unreachable!()
    }

    fn is_argmin(_: QTensor<f64>, _: Whole, _: IntDType, _: Tensor<Whole>) -> bool {
        unreachable!()
    }
}

impl<const KEEP: bool> Backend for Cpu<KEEP> {
    fn float_shape(tensor: &Float) -> Vec<usize> {
        tensor.shape.clone()
    }

    fn float_clone(tensor: &Float) -> Float {
        tensor.clone()
    }

    fn float_device(tensor: &Float) -> u32 {
        tensor.device
    }

    fn get_device_settings(device: &u32) -> DeviceSettings {
        DeviceSettings {
            float_dtype: if *device == 7 { FloatDType::F32 } else { FloatDType::F64 },
            int_dtype: IntDType::I64,
            bool_dtype: if *device == 7 { BoolDType::U8 } else { BoolDType::Native },
        }
    }

    fn float_reshape(tensor: Float, shape: Vec<usize>) -> Float {
        assert_eq!(shape.iter().product::<usize>(), tensor.data.len());
        Float { shape, ..tensor }
    }

    fn float_min(tensor: Float) -> Float {
        let mut x = tensor.data[0];
        for y in &tensor.data {
            x = x.min(*y);
        }
        Float { shape: vec![1], data: vec![x], device: tensor.device }
    }

    fn float_max(tensor: Float) -> Float {
        let mut x = tensor.data[0];
        for y in &tensor.data {
            x = x.max(*y);
        }
        Float { shape: vec![1], data: vec![x], device: tensor.device }
    }

    fn float_min_dim(tensor: Float, dim: usize) -> Float {
        reduce(&tensor, dim, KEEP, f64::min)
    }

    fn float_max_dim(tensor: Float, dim: usize) -> Float {
        reduce(&tensor, dim, KEEP, f64::max)
    }

    fn float_sum_dim(tensor: Float, dim: usize) -> Float {
        reduce(&tensor, dim, KEEP, |x, y| x + y)
    }

    fn float_abs(mut tensor: Float) -> Float {
        for x in &mut tensor.data {
            *x = x.abs();
        }
        tensor
    }

    fn float_lower(lhs: Float, rhs: Float, out_dtype: BoolDType) -> Truth {
        assert_eq!(out_dtype, Self::get_device_settings(&lhs.device).bool_dtype);
        let data = lhs.data.iter().zip(&rhs.data).map(|(x, y)| x < y).collect();
        Truth { shape: lhs.shape, data }
    }

    fn float_mask_where(mut tensor: Float, mask: Truth, value: Float) -> Float {
        for i in 0..tensor.data.len() {
            if mask.data[i] {
                tensor.data[i] = value.data[i];
            }
        }
        tensor
    }

    fn float_mul_scalar(mut lhs: Float, rhs: i32) -> Float {
        for x in &mut lhs.data {
            *x *= rhs as f64;
        }
        lhs
    }

    fn float_div_scalar(mut lhs: Float, rhs: i32) -> Float {
        for x in &mut lhs.data {
            *x /= rhs as f64;
        }
        lhs
    }

    fn float_sub(mut lhs: Float, rhs: Float) -> Float {
        for i in 0..lhs.data.len() {
            lhs.data[i] -= rhs.data[i];
        }
        lhs
    }

    fn float_transpose(tensor: Float) -> Float {
        transpose(&tensor)
    }

    fn float_matmul(lhs: Float, rhs: Float) -> Float {
        matmul(&lhs, &rhs)
    }

    fn q_shape(tensor: &Quant) -> Vec<usize> {
        tensor.shape.clone()
    }

    fn q_clone(tensor: &Quant) -> Quant {
        tensor.clone()
    }

    fn q_propagation(tensor: &Quant) -> QuantPropagation {
        tensor.propagation
    }

    fn q_from_data(data: TensorData, device: &u32) -> Quant {
        let codes: Vec<f64> = data.bytes.iter().map(|b| *b as i8 as f64).collect();
        Quant {
            shape: data.shape,
            scales: vec![1.0; codes.len()],
            biases: vec![0.0; codes.len()],
            codes,
            propagation: QuantPropagation::Inhibit,
            device: *device,
            trace: vec!["q_from_data".to_string()],
        }
    }

    fn quantize(
        tensor: Float,
        scheme: &QuantScheme,
        qparams: QuantizationParametersPrimitive<Float>,
    ) -> Quant {
        let sides: Vec<usize> = match scheme.level {
            QuantLevel::Tensor => vec![1; tensor.shape.len()],
            QuantLevel::Block(block) => {
                block.to_dim_vec(tensor.shape.len()).iter().map(|b| *b as usize).collect()
            }
        };
        let (low, high) = ends(scheme.value);
        let scales = spread(&qparams.scales, &tensor.shape, &sides);
        let biases = match &qparams.biases {
            Some(b) => spread(b, &tensor.shape, &sides),
            None => vec![0.0; scales.len()],
        };
        let mut codes = Vec::new();
        for i in 0..tensor.data.len() {
            codes.push(((tensor.data[i] - biases[i]) / scales[i]).round().clamp(low, high));
        }
        Quant {
            shape: tensor.shape,
            codes,
            scales,
            biases,
            propagation: QuantPropagation::Inhibit,
            device: tensor.device,
            trace: vec!["quantize".to_string()],
        }
    }

    fn quantize_dynamic(tensor: Float, scheme: &QuantScheme) -> Quant {
        let (min, max) = compute_range::<Self>(scheme, tensor.clone(), &Calibration::MinMax);
        let qparams = compute_q_params::<Self>(scheme, min, max);
        Self::quantize(tensor, scheme, qparams)
    }

    fn dequantize(tensor: Quant, dtype: FloatDType) -> Float {
        let data = tensor.decoded(dtype);
        Float { shape: tensor.shape, data, device: tensor.device }
    }

    fn q_matmul(
        lhs: TensorPrimitive<Float, Quant>,
        rhs: TensorPrimitive<Float, Quant>,
    ) -> TensorPrimitive<Float, Quant> {
        let mut propagate = true;
        let mut read = |t: TensorPrimitive<Float, Quant>| match t {
            TensorPrimitive::Float(f) => {
                propagate = false;
                f
            }
            TensorPrimitive::QFloat(q) => {
                propagate &= q.propagation == QuantPropagation::Propagate;
                Float { data: q.decoded(FloatDType::F64), shape: q.shape, device: q.device }
            }
        };
        let (l, r) = (read(lhs), read(rhs));
        let out = matmul(&l, &r);
        if propagate {
            TensorPrimitive::QFloat(Quant {
                scales: vec![1.0; out.data.len()],
                biases: vec![0.0; out.data.len()],
                shape: out.shape,
                codes: out.data,
                propagation: QuantPropagation::Propagate,
                device: out.device,
                trace: vec!["q_matmul".to_string()],
            })
        } else {
            TensorPrimitive::Float(out)
        }
    }

    fn q_device(tensor: &Quant) -> u32 {
        tensor.device
    }

    fn q_to_device(mut tensor: Quant, device: &u32) -> Quant {
        tensor.device = *device;
        tensor
    }

    fn q_reshape(tensor: Quant, shape: Vec<usize>) -> Quant {
        tensor.with(format!("reshape {shape:?}"))
    }

    fn q_swap_dims(tensor: Quant, dim1: usize, dim2: usize) -> Quant {
        tensor.with(format!("swap_dims {dim1} {dim2}"))
    }

    fn q_permute(tensor: Quant, axes: &[usize]) -> Quant {
        tensor.with(format!("permute {axes:?}"))
    }

    fn q_flip(tensor: Quant, axes: &[usize]) -> Quant {
        tensor.with(format!("flip {axes:?}"))
    }

    fn q_slice(tensor: Quant, slices: &[Slice]) -> Quant {
        tensor.with(format!("slice {} {:?}", slices.len(), slices[0].end))
    }

    fn q_expand(tensor: Quant, shape: Vec<usize>) -> Quant {
        tensor.with(format!("expand {shape:?}"))
    }

    fn q_gather(dim: usize, tensor: Quant, indices: Int) -> Quant {
        tensor.with(format!("gather {dim} {:?}", indices.data))
    }

    fn q_select(tensor: Quant, dim: usize, indices: Int) -> Quant {
        tensor.with(format!("select {dim} {:?}", indices.data))
    }

    fn q_argmax(tensor: Quant, dim: usize, out_dtype: IntDType) -> Int {
        assert_eq!(out_dtype, IntDType::I32);
        Int { shape: tensor.shape, data: vec![1, dim as i64] }
    }

    fn q_argmin(tensor: Quant, dim: usize, out_dtype: IntDType) -> Int {
        assert_eq!(out_dtype, IntDType::I32);
        Int { shape: tensor.shape, data: vec![-1, dim as i64] }
    }
}

fn scheme(value: QuantValue, level: QuantLevel, mode: QuantMode) -> QuantScheme {
    QuantScheme { value, param: QuantParam::F32, store: QuantStore::Native, level, mode }
}

fn block(sides: &[u8]) -> QuantLevel {
    QuantLevel::Block(BlockSize::new(sides))
}

fn leaf(graph: &mut Graph<Kept>, data: Float, grad: bool) -> AutodiffTensor<Kept> {
    let mut tensor = AutodiffTensor::new(graph, data);
    if grad {
        tensor.node.requirement = Requirement::Grad;
    }
    tensor
}

fn copy(tensor: &AutodiffTensor<Kept>) -> AutodiffTensor<Kept> {
    AutodiffTensor { primitive: tensor.primitive.clone(), node: tensor.node }
}

/// Runs the recorded steps from the newest to the oldest, starting with ones.
fn backward(graph: Graph<Kept>, root: &AutodiffTensor<Kept>) -> HashMap<u64, Float> {
    let mut grads: HashMap<u64, Float> = HashMap::new();
    let mut ones = root.primitive.clone();
    ones.data = vec![1.0; ones.data.len()];
    grads.insert(root.node.id.value, ones);
    let mut steps: Vec<Step<Kept>> = graph.steps;
    while let Some(step) = steps.pop() {
        let Some(grad) = grads.remove(&step.node.value) else { continue };
        for (NodeId { value: id }, part) in step.operation.backward(grad) {
            match grads.get_mut(&id) {
                Some(sum) => {
                    for i in 0..sum.data.len() {
                        sum.data[i] += part.data[i];
                    }
                }
                None => {
                    grads.insert(id, part);
                }
            }
        }
    }
    grads
}

#[test]
fn should_diff_matmul() {
    let mut graph = Graph::new();
    let tensor_1 = leaf(&mut graph, float(&[2, 2], &[1.0, 7.0, 2.0, 3.0]), true);
    let tensor_2 = leaf(&mut graph, float(&[2, 2], &[4.0, 7.0, 2.0, 3.0]), true);

    let tensor_3 = Autodiff::float_matmul(&mut graph, copy(&tensor_1), copy(&tensor_2));
    let grads = backward(graph, &tensor_3);

    let grad_1 = &grads[&tensor_1.node.id.value];
    let grad_2 = &grads[&tensor_2.node.id.value];

    assert_eq!(*grad_1, float(&[2, 2], &[11.0, 5.0, 11.0, 5.0]));
    assert_eq!(*grad_2, float(&[2, 2], &[3.0, 3.0, 10.0, 10.0]));
    assert_eq!(tensor_3.primitive, float(&[2, 2], &[18.0, 28.0, 14.0, 23.0]));
}

#[test]
fn test_matmul_complex_1() {
    let mut graph = Graph::new();
    let tensor_1 = leaf(&mut graph, float(&[2, 2], &[1.0, 7.0, 13.0, -3.0]), true);
    let tensor_2 = leaf(&mut graph, float(&[2, 2], &[4.0, 7.0, 2.0, 3.0]), true);
    let tensor_3 = leaf(&mut graph, float(&[2, 2], &[2.0, 2.0, 2.0, 2.0]), true);

    let tensor_4 = Autodiff::float_matmul(&mut graph, copy(&tensor_1), copy(&tensor_2));
    let tensor_5 = Autodiff::float_matmul(&mut graph, tensor_4, tensor_3);

    let grads = backward(graph, &tensor_5);

    let grad_1 = &grads[&tensor_1.node.id.value];
    let grad_2 = &grads[&tensor_2.node.id.value];

    assert_eq!(*grad_1, float(&[2, 2], &[44.0, 20.0, 44.0, 20.0]));
    assert_eq!(*grad_2, float(&[2, 2], &[56.0, 56.0, 16.0, 16.0]));
}

#[test]
fn test_matmul_complex_2() {
    let mut graph = Graph::new();
    let tensor_1 = leaf(&mut graph, float(&[2, 2], &[1.0, 7.0, 13.0, -3.0]), true);
    let tensor_2 = leaf(&mut graph, float(&[2, 2], &[4.0, 7.0, 2.0, 3.0]), true);
    let tensor_3 = leaf(&mut graph, float(&[2, 2], &[2.0, 2.0, 2.0, 2.0]), true);

    let tensor_4 = Autodiff::float_matmul(&mut graph, copy(&tensor_1), copy(&tensor_2));
    let tensor_5 = Autodiff::float_matmul(&mut graph, tensor_4, copy(&tensor_3));
    let tensor_6 = Autodiff::float_matmul(&mut graph, copy(&tensor_1), tensor_5);

    let grads = backward(graph, &tensor_6);

    let grad_1 = &grads[&tensor_1.node.id.value];
    let grad_2 = &grads[&tensor_2.node.id.value];

    assert_eq!(*grad_1, float(&[2, 2], &[800.0, 792.0, 360.0, 592.0]));
    assert_eq!(*grad_2, float(&[2, 2], &[264.0, 264.0, 344.0, 344.0]));
}

#[test]
fn should_diff_matmul_with_quantized_rhs() {
    let mut graph = Graph::new();
    let tensor_1 = leaf(&mut graph, float(&[2, 2], &[1.0, 7.0, 2.0, 3.0]), true);
    let tensor_2_float = leaf(&mut graph, float(&[2, 2], &[4.0, 7.0, 2.0, 3.0]), false);
    let q8s = scheme(QuantValue::Q8S, QuantLevel::Tensor, QuantMode::Symmetric);
    let tensor_2 = Autodiff::quantize_dynamic(tensor_2_float, &q8s);

    let out = Autodiff::q_matmul(
        &mut graph,
        TensorPrimitive::Float(copy(&tensor_1)),
        TensorPrimitive::QFloat(tensor_2),
    );
    let tensor_3 = out.into_float();
    let grads = backward(graph, &tensor_3);

    let grad_1 = &grads[&tensor_1.node.id.value];
    assert_eq!(grad_1.shape, vec![2, 2]);

    let w_float_inner = float(&[2, 2], &[4.0, 7.0, 2.0, 3.0]);
    let w_q_inner = Kept::quantize_dynamic(w_float_inner, &q8s);
    let w_dequant = Kept::dequantize(w_q_inner, FloatDType::F64);
    let ones = float(&[2, 2], &[1.0, 1.0, 1.0, 1.0]);
    let expected = matmul(&ones, &transpose(&w_dequant));

    assert!(grad_1.data.iter().all(|v| v.is_finite()));
    for (i, (actual, expected)) in grad_1.data.iter().zip(expected.data.iter()).enumerate() {
        let diff = (actual - expected).abs();
        let tolerance = expected.abs() * 0.01 + 0.05;
        assert!(diff < tolerance, "gradient mismatch at index {i}: {actual} {expected}");
    }
}

#[test]
fn the_gradient_of_a_right_factor() {
    // The greatest absolute value is 127, so the scale is one and nothing is rounded.
    let q8s = scheme(QuantValue::Q8S, QuantLevel::Tensor, QuantMode::Symmetric);
    let q = Kept::quantize_dynamic(float(&[2, 2], &[127.0, 64.0, -5.0, 0.0]), &q8s);
    assert_eq!(q.codes, vec![127.0, 64.0, -5.0, 0.0]);
    assert_eq!(q.scales, vec![1.0; 4]);

    let mut graph = Graph::new();
    let rhs = leaf(&mut graph, float(&[2, 1], &[1.0, 2.0]), true);
    let out = Autodiff::q_matmul(
        &mut graph,
        TensorPrimitive::QFloat(q),
        TensorPrimitive::Float(copy(&rhs)),
    )
    .into_float();
    assert_eq!(out.primitive, float(&[2, 1], &[255.0, -5.0]));
    assert_eq!(out.node.requirement, Requirement::GradInBackward);
    assert_eq!(graph.steps.len(), 1);
    assert_eq!(graph.steps[0].property, ComputingProperty::ComputeBound);
    assert!(matches!(&graph.steps[0].operation, Operation::QMatmulFloatRhs { parent, .. }
        if *parent == rhs.node.id));
    let grads = backward(graph, &out);
    assert_eq!(grads[&rhs.node.id.value], float(&[2, 1], &[122.0, 64.0]));
    assert_eq!(grads.len(), 1);
}

#[test]
fn an_untracked_activation_records_nothing() {
    let mut graph = Graph::new();
    let x = leaf(&mut graph, float(&[1, 2], &[1.0, 2.0]), false);
    let data = TensorData { bytes: vec![3, 4], shape: vec![2, 1], dtype: DType::I8 };
    let q = Autodiff::<Kept>::q_from_data(data, &0);
    let out = Autodiff::q_matmul(
        &mut graph,
        TensorPrimitive::Float(x),
        TensorPrimitive::QFloat(q),
    )
    .into_float();
    assert_eq!(out.primitive, float(&[1, 1], &[11.0]));
    assert_eq!(out.node.requirement, Requirement::Untracked);
    assert_eq!(out.node.id, NodeId { value: 1 });
    assert!(graph.steps.is_empty());
    assert_eq!(graph.next, 2);
}

#[test]
fn quantized_operands_are_frozen() {
    let mut graph: Graph<Kept> = Graph::new();
    let data = || TensorData { bytes: vec![1, 2, 3, 4], shape: vec![2, 2], dtype: DType::I8 };
    let lhs = Autodiff::<Kept>::q_from_data(data(), &0);
    let rhs = Autodiff::<Kept>::q_from_data(data(), &0);
    let out = Autodiff::q_matmul(
        &mut graph,
        TensorPrimitive::QFloat(lhs.clone()),
        TensorPrimitive::QFloat(rhs.clone()),
    )
    .into_float();
    assert_eq!(out.primitive.data, vec![7.0, 10.0, 15.0, 22.0]);
    assert_eq!(out.node.requirement, Requirement::Untracked);
    assert!(graph.steps.is_empty());
    assert_eq!(graph.next, 1);

    let propagate = |mut q: Quant| {
        q.propagation = QuantPropagation::Propagate;
        q
    };
    let out = Autodiff::q_matmul(
        &mut graph,
        TensorPrimitive::QFloat(propagate(lhs)),
        TensorPrimitive::QFloat(propagate(rhs)),
    );
    assert!(matches!(out, TensorPrimitive::QFloat(q) if q.codes == vec![7.0, 10.0, 15.0, 22.0]));
    assert_eq!(graph.next, 1);
}

#[test]
fn float_operands_are_kept_where_the_other_one_needs_a_gradient() {
    let mut graph = Graph::new();
    let x = leaf(&mut graph, float(&[1, 2], &[1.0, 2.0]), true);
    let w = leaf(&mut graph, float(&[2, 1], &[3.0, 4.0]), false);
    let out = Autodiff::q_matmul(
        &mut graph,
        TensorPrimitive::Float(copy(&x)),
        TensorPrimitive::Float(copy(&w)),
    )
    .into_float();
    assert_eq!(out.primitive.data, vec![11.0]);
    match &graph.steps[0].operation {
        Operation::Matmul { lhs, rhs, state } => {
            assert_eq!(*lhs, Some(x.node.id));
            assert_eq!(*rhs, None);
            assert!(state.lhs.is_none());
            assert_eq!(state.rhs, Some(float(&[2, 1], &[3.0, 4.0])));
            assert_eq!(state.lhs_shape, vec![1, 2]);
            assert_eq!(state.rhs_shape, vec![2, 1]);
        }
        _ => panic!("not a product of floats"),
    }
    let grads = backward(graph, &out);
    assert_eq!(grads[&x.node.id.value], float(&[1, 2], &[3.0, 4.0]));
    assert!(!grads.contains_key(&w.node.id.value));

    let mut graph = Graph::new();
    let x = leaf(&mut graph, float(&[1, 2], &[1.0, 2.0]), false);
    let w = leaf(&mut graph, float(&[2, 1], &[3.0, 4.0]), false);
    let out = Autodiff::float_matmul(&mut graph, x, w);
    assert_eq!(out.node.requirement, Requirement::Untracked);
    assert!(graph.steps.is_empty());
}

#[test]
fn the_gradient_has_the_dimensions_of_a_batched_activation() {
    let data = TensorData { bytes: vec![1, 2, 3, 4, 5, 6], shape: vec![1, 3, 2], dtype: DType::I8 };
    let q = Autodiff::<Kept>::q_from_data(data, &0);
    let lhs = QMatmulFloatLhs::<Kept> { q_rhs: q.clone() };
    let grad = float(&[2, 1, 2], &[1.0, 0.0, 0.0, 1.0]);
    let out = lhs.backward_in(grad.clone(), FloatDType::F64);
    assert_eq!(out, float(&[2, 1, 3], &[1.0, 3.0, 5.0, 2.0, 4.0, 6.0]));

    let rhs = QMatmulFloatRhs::<Kept> { q_lhs: q };
    let grad = float(&[2, 3, 1], &[1.0, 0.0, 0.0, 0.0, 0.0, 1.0]);
    let out = rhs.backward_in(grad, FloatDType::F64);
    assert_eq!(out, float(&[2, 2, 1], &[1.0, 2.0, 5.0, 6.0]));
}

#[test]
fn the_gradient_is_the_transpose_of_the_product() {
    // For every change of the activation, both inner products agree.
    let weight = float(&[3, 2], &[1.0, -2.0, 3.0, 4.0, 5.0, -6.0]);
    let grad = float(&[2, 2], &[1.0, 2.0, -3.0, 0.5]);
    let op = Matmul::<Kept> {
        lhs: None,
        rhs: Some(weight.clone()),
        lhs_shape: vec![2, 3],
        rhs_shape: vec![3, 2],
    };
    let out = op.backward(grad.clone()).0.unwrap();
    for f in 0..6 {
        let mut change = float(&[2, 3], &[0.0; 6]);
        change.data[f] = 1.0;
        let effect = matmul(&change, &weight);
        let left: f64 = effect.data.iter().zip(&grad.data).map(|(x, y)| x * y).sum();
        assert_eq!(left, out.data[f]);
    }
    let op = Matmul::<Kept> {
        lhs: Some(weight.clone()),
        rhs: None,
        lhs_shape: vec![3, 2],
        rhs_shape: vec![2, 1],
    };
    let grad = float(&[3, 1], &[1.0, 2.0, -1.0]);
    let (none, out) = op.backward(grad.clone());
    assert!(none.is_none());
    assert_eq!(out, Some(matmul(&transpose(&weight), &grad)));
}

#[test]
fn the_backward_pass_reads_weights_in_the_float_type_of_their_device() {
    let mut q = Autodiff::<Kept>::q_from_data(
        TensorData { bytes: vec![1], shape: vec![1, 1], dtype: DType::I8 },
        &7,
    );
    q.scales = vec![0.1];
    let op = QMatmulFloatLhs::<Kept> { q_rhs: q.clone() };
    let one = float(&[1, 1], &[1.0]);
    assert_eq!(op.backward(one.clone()).data, vec![0.1f32 as f64]);
    let moved = Autodiff::<Kept>::q_to_device(q, &0);
    assert_eq!(Autodiff::<Kept>::q_device(&moved), 0);
    let op = QMatmulFloatRhs::<Kept> { q_lhs: moved };
    assert_eq!(op.backward(one).data, vec![0.1]);
}

#[test]
fn quantization_forgets_nodes() {
    let mut graph = Graph::new();
    let affine = scheme(QuantValue::Q4F, QuantLevel::Tensor, QuantMode::Affine);
    let x = leaf(&mut graph, float(&[1, 2], &[1.0, 16.0]), true);
    let qparams = QuantizationParametersPrimitive {
        scales: leaf(&mut graph, float(&[1], &[1.0]), false),
        biases: Some(leaf(&mut graph, float(&[1], &[9.0]), false)),
    };
    let q = Autodiff::quantize(x, &affine, qparams);
    assert_eq!(q.codes, vec![-8.0, 7.0]);
    assert_eq!(q.trace, vec!["quantize"]);
    let back = Autodiff::dequantize(&mut graph, q, FloatDType::F64);
    assert_eq!(back.primitive, float(&[1, 2], &[1.0, 16.0]));
    assert_eq!(back.node.requirement, Requirement::Untracked);
    assert_eq!(back.node.id, NodeId { value: 3 });
    assert!(graph.steps.is_empty());
}

#[test]
fn other_operations_are_those_of_the_backend() {
    let data = TensorData { bytes: vec![1, 255], shape: vec![1, 2], dtype: DType::I8 };
    let q = Autodiff::<Kept>::q_from_data(data, &3);
    assert_eq!(q.codes, vec![1.0, -1.0]);
    assert_eq!(Autodiff::<Kept>::q_device(&q), 3);
    let indices = || Int { shape: vec![1], data: vec![4] };
    let q = Autodiff::<Kept>::q_reshape(q, vec![2, 1]);
    let q = Autodiff::<Kept>::q_swap_dims(q, 0, 1);
    let q = Autodiff::<Kept>::q_permute(q, &[1, 0]);
    let q = Autodiff::<Kept>::q_flip(q, &[1]);
    let q = Autodiff::<Kept>::q_gather(2, q, indices());
    let q = Autodiff::<Kept>::q_select(q, 5, indices());
    let q = Autodiff::<Kept>::q_slice(q, &[Slice { start: 0, end: Some(1), step: 1 }]);
    let q = Autodiff::<Kept>::q_expand(q, vec![2, 2]);
    let expected = vec![
        "q_from_data", "reshape [2, 1]", "swap_dims 0 1", "permute [1, 0]", "flip [1]",
        "gather 2 [4]", "select 5 [4]", "slice 1 Some(1)", "expand [2, 2]",
    ];
    assert_eq!(q.trace, expected);
    assert_eq!(Autodiff::<Kept>::q_argmax(q.clone(), 1, IntDType::I32).data, vec![1, 1]);
    assert_eq!(Autodiff::<Kept>::q_argmin(q, 0, IntDType::I32).data, vec![-1, 0]);
}

fn grid() -> Float {
    let mut data = Vec::new();
    for i in 0..4 {
        for j in 0..6 {
            data.push(if (i + j) % 2 == 0 { (10 * i + j) as f64 } else { -((10 * i + j) as f64) });
        }
    }
    float(&[4, 6], &data)
}

#[test]
fn the_range_of_a_tensor() {
    let s = scheme(QuantValue::Q8S, QuantLevel::Tensor, QuantMode::Symmetric);
    let (min, max) = compute_range::<Kept>(&s, grid(), &Calibration::MinMax);
    assert_eq!(min, float(&[1], &[-34.0]));
    assert_eq!(max, float(&[1], &[35.0]));
}

#[test]
fn the_range_of_each_block() {
    let s = scheme(QuantValue::Q8S, block(&[2, 3]), QuantMode::Symmetric);
    let low = float(&[2, 2], &[-12.0, -14.0, -32.0, -34.0]);
    let high = float(&[2, 2], &[11.0, 15.0, 31.0, 35.0]);
    let (min, max) = compute_range::<Kept>(&s, grid(), &Calibration::MinMax);
    assert_eq!((min, max), (low.clone(), high.clone()));
    let (min, max) = compute_range::<Dropped>(&s, grid(), &Calibration::MinMax);
    assert_eq!((min, max), (low, high));
}

#[test]
fn a_block_with_fewer_sides_than_the_tensor_cuts_the_innermost_dimensions() {
    let s = scheme(QuantValue::Q8S, block(&[6]), QuantMode::Symmetric);
    let (min, max) = compute_range::<Dropped>(&s, grid(), &Calibration::MinMax);
    assert_eq!(min, float(&[4, 1], &[-5.0, -14.0, -25.0, -34.0]));
    assert_eq!(max, float(&[4, 1], &[4.0, 15.0, 24.0, 35.0]));
}

#[test]
fn a_dimension_smaller_than_the_side_is_one_block() {
    let s = scheme(QuantValue::Q8S, block(&[32, 3]), QuantMode::Symmetric);
    let (min, max) = compute_range::<Kept>(&s, grid(), &Calibration::MinMax);
    assert_eq!(min, float(&[1, 2], &[-32.0, -34.0]));
    assert_eq!(max, float(&[1, 2], &[31.0, 35.0]));
}

#[test]
fn ranges_are_ordered_and_hold_their_blocks() {
    let s = scheme(QuantValue::Q8S, block(&[2, 2]), QuantMode::Symmetric);
    let t = grid();
    let (min, max) = compute_range::<Kept>(&s, t.clone(), &Calibration::MinMax);
    for i in 0..6 {
        assert!(min.data[i] <= max.data[i]);
    }
    for i in 0..4 {
        for j in 0..6 {
            let p = (i / 2) * 3 + j / 2;
            assert!(min.data[p] <= t.data[i * 6 + j] && t.data[i * 6 + j] <= max.data[p]);
        }
    }
}

#[test]
fn only_multiples_of_the_side_or_smaller_dimensions_can_be_cut() {
    assert_eq!(block_reshape(&[4, 6], &[2, 3]), Some(vec![2, 2, 2, 3]));
    assert_eq!(block_reshape(&[4, 6], &[32, 3]), Some(vec![1, 4, 2, 3]));
    assert_eq!(block_reshape(&[4, 6], &[4, 4]), None);
    assert_eq!(block_reshape(&[3, 6], &[2, 4]), None);
    assert_eq!(block_reshape(&[], &[]), Some(vec![]));
}

#[test]
fn counting_elements() {
    assert_eq!(checked_num_elements(&[]), Some(1));
    assert_eq!(checked_num_elements(&[2, 3, 4]), Some(24));
    assert_eq!(checked_num_elements(&[usize::MAX, 1]), Some(usize::MAX));
    assert_eq!(checked_num_elements(&[usize::MAX, 2]), None);
}

#[test]
fn symmetric_parameters() {
    let s = scheme(QuantValue::Q8S, QuantLevel::Tensor, QuantMode::Symmetric);
    let params = compute_q_params::<Kept>(&s, float(&[2], &[-2.0, -5.0]), float(&[2], &[3.0, 4.0]));
    assert_eq!(params.scales, float(&[2], &[6.0 / 254.0, 10.0 / 254.0]));
    assert!(params.biases.is_none());
}

#[test]
fn affine_parameters() {
    let s = scheme(QuantValue::Q8F, QuantLevel::Tensor, QuantMode::Affine);
    let params = compute_q_params::<Kept>(&s, float(&[1], &[-2.0]), float(&[1], &[3.0]));
    let scale = 5.0 / 255.0;
    assert_eq!(params.scales, float(&[1], &[scale]));
    assert_eq!(params.biases, Some(float(&[1], &[-2.0 - scale * -128.0])));
}

#[test]
fn affine_parameters_map_the_ends_to_the_ends() {
    // A step of one, so nothing is rounded.
    let s = scheme(QuantValue::Q4F, QuantLevel::Tensor, QuantMode::Affine);
    let params = compute_q_params::<Kept>(&s, float(&[1], &[1.0]), float(&[1], &[16.0]));
    let (scale, bias) = (params.scales.data[0], params.biases.unwrap().data[0]);
    assert_eq!((scale, bias), (1.0, 9.0));
    let (low, high) = ends(QuantValue::Q4F);
    assert_eq!(scale * low + bias, 1.0);
    assert_eq!(scale * high + bias, 16.0);
}

#[test]
fn a_symmetric_scale_reaches_both_ends_of_a_symmetric_range() {
    let s = scheme(QuantValue::Q4S, QuantLevel::Tensor, QuantMode::Symmetric);
    let params = compute_q_params::<Kept>(&s, float(&[1], &[-14.0]), float(&[1], &[3.0]));
    let (low, high) = ends(QuantValue::Q4S);
    assert_eq!(params.scales.data[0] * low, -14.0);
    assert_eq!(params.scales.data[0] * high, 14.0);
    // A full range has one value more below zero than above.
    let s = scheme(QuantValue::Q4F, QuantLevel::Tensor, QuantMode::Symmetric);
    let params = compute_q_params::<Kept>(&s, float(&[1], &[-15.0]), float(&[1], &[15.0]));
    assert_eq!(params.scales.data[0], 2.0);
    assert_eq!(params.scales.data[0] * ends(QuantValue::Q4F).1, 14.0);
}

#[test]
fn parameters_of_blocks_represent_their_elements() {
    for mode in [QuantMode::Symmetric, QuantMode::Affine] {
        let s = scheme(QuantValue::Q8S, block(&[2, 3]), mode);
        let q = Kept::quantize_dynamic(grid(), &s);
        let back = q.decoded(FloatDType::F64);
        for (i, x) in grid().data.iter().enumerate() {
            assert!((back[i] - x).abs() <= q.scales[i] / 2.0 + 1e-9);
        }
    }
}

#[test]
fn a_repeated_factor_gets_the_sum_of_its_gradients() {
    for keep in [true, false] {
        let grad = float(&[2, 2, 1, 1], &[1.0, 2.0, 3.0, 4.0]);
        let weight = float(&[2, 2, 2, 1], &[1.0, 10.0, 2.0, 20.0, 3.0, 30.0, 4.0, 40.0]);
        let expected = float(&[1, 2, 1, 2], &[10.0, 100.0, 20.0, 200.0]);
        let (lhs_shape, rhs_shape) = (vec![1, 2, 1, 2], vec![2, 2, 2, 1]);
        let out = if keep {
            let op = Matmul::<Kept> { lhs: None, rhs: Some(weight), lhs_shape, rhs_shape };
            op.backward(grad).0
        } else {
            let op = Matmul::<Dropped> { lhs: None, rhs: Some(weight), lhs_shape, rhs_shape };
            op.backward(grad).0
        };
        assert_eq!(out, Some(expected));
    }
    let mut graph = Graph::new();
    let x = leaf(&mut graph, float(&[2, 1, 2], &[1.0, 2.0, 3.0, 4.0]), true);
    let w = leaf(&mut graph, float(&[1, 2, 1], &[5.0, 6.0]), true);
    let out = Autodiff::float_matmul(&mut graph, copy(&x), copy(&w));
    assert_eq!(out.primitive, float(&[2, 1, 1], &[17.0, 39.0]));
    let grads = backward(graph, &out);
    assert_eq!(grads[&x.node.id.value], float(&[2, 1, 2], &[5.0, 6.0, 5.0, 6.0]));
    assert_eq!(grads[&w.node.id.value], float(&[1, 2, 1], &[4.0, 6.0]));
}

#[test]
fn truth_values_are_compared_in_the_type_of_the_device() {
    let s = scheme(QuantValue::Q8S, QuantLevel::Tensor, QuantMode::Symmetric);
    let on_device = |x: f64| Float { shape: vec![1], data: vec![x], device: 7 };
    let params = compute_q_params::<Kept>(&s, on_device(-127.0), on_device(1.0));
    assert_eq!(params.scales, on_device(1.0));
}

#[test]
fn an_affine_tensor_reads_back_with_its_bias() {
    let s = scheme(QuantValue::Q8F, QuantLevel::Tensor, QuantMode::Affine);
    let mut graph = Graph::new();
    let x = leaf(&mut graph, float(&[1, 3], &[0.0, 100.0, 255.0]), false);
    let qparams = QuantizationParametersPrimitive {
        scales: leaf(&mut graph, float(&[1], &[1.0]), false),
        biases: Some(leaf(&mut graph, float(&[1], &[128.0]), false)),
    };
    let q = Autodiff::quantize(x, &s, qparams);
    assert_eq!(q.codes, vec![-128.0, -28.0, 127.0]);
    let back = Autodiff::dequantize(&mut graph, q, FloatDType::F64);
    assert_eq!(back.primitive, float(&[1, 3], &[0.0, 100.0, 255.0]));
}

#[test]
fn a_full_symmetric_range_stays_within_half_a_step() {
    // The greatest value lies half a step above the greatest quantized one.
    let s = scheme(QuantValue::Q4F, QuantLevel::Tensor, QuantMode::Symmetric);
    let q = Kept::quantize_dynamic(float(&[1, 3], &[-15.0, 1.0, 15.0]), &s);
    assert_eq!(q.scales, vec![2.0; 3]);
    for (x, y) in q.decoded(FloatDType::F64).iter().zip([-15.0, 1.0, 15.0]) {
        assert!((x - y).abs() <= 1.0);
    }
}

#[test]
fn a_negated_range_has_the_same_scales() {
    let (low, high) = (float(&[2], &[-2.0, 3.0]), float(&[2], &[5.0, 4.0]));
    let (minus_high, minus_low) = (float(&[2], &[-5.0, -4.0]), float(&[2], &[2.0, -3.0]));
    for mode in [QuantMode::Symmetric, QuantMode::Affine] {
        let s = scheme(QuantValue::Q8S, QuantLevel::Tensor, mode);
        let params = compute_q_params::<Kept>(&s, low.clone(), high.clone());
        let mirrored = compute_q_params::<Kept>(&s, minus_high.clone(), minus_low.clone());
        assert_eq!(params.scales, mirrored.scales);
    }
}

#[test]
fn a_nearest_value_is_at_most_half_a_step_away() {
    for value in [QuantValue::Q2S, QuantValue::Q4S, QuantValue::Q4F, QuantValue::Q8F] {
        for mode in [QuantMode::Symmetric, QuantMode::Affine] {
            let s = scheme(value, block(&[2, 3]), mode);
            let (min, max) = compute_range::<Kept>(&s, grid(), &Calibration::MinMax);
            let params = compute_q_params::<Kept>(&s, min, max);
            let scales = spread(&params.scales, &[4, 6], &[2, 3]);
            let biases = match &params.biases {
                Some(b) => spread(b, &[4, 6], &[2, 3]),
                None => vec![0.0; 24],
            };
            let (low, high) = value.range();
            for (i, x) in grid().data.iter().enumerate() {
                let mut nearest = f64::INFINITY;
                for q in low..=high {
                    nearest = nearest.min((scales[i] * q as f64 + biases[i] - x).abs());
                }
                assert!(nearest <= scales[i] / 2.0 + 1e-9);
            }
        }
    }
}
