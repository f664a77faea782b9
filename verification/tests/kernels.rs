//! The buffers on which quantization kernels work.
use burn_quant::kernel::{
    dequantize, finished, quantize, Binding, CubeTensor, Dequantize, DeviceId,
};
use burn_quant::scheme::{
    BlockSize, QuantLevel, QuantMode, QuantParam, QuantScheme, QuantStore, QuantValue,
};
use burn_quant::tensor::DType;

const DEVICE: DeviceId = DeviceId { type_id: 1, index_id: 2 };

fn scheme(mode: QuantMode) -> QuantScheme {
    QuantScheme {
        value: QuantValue::Q8S,
        param: QuantParam::F32,
        store: QuantStore::PackedU32(0),
        level: QuantLevel::Block(BlockSize::new(&[4])),
        mode,
    }
}

fn binding(handle: u32, shape: &[usize], dtype: DType) -> Binding<u32> {
    Binding { handle, shape: shape.to_vec(), dtype, device: DEVICE }
}

fn plain(handle: u32, shape: &[usize], dtype: DType) -> CubeTensor<u32> {
    CubeTensor {
        shape: shape.to_vec(),
        dtype,
        device: DEVICE,
        values: binding(handle, shape, dtype),
        scales: None,
        biases: None,
    }
}

fn quantized(mode: QuantMode, biases: bool) -> CubeTensor<u32> {
    CubeTensor {
        shape: vec![2, 8],
        dtype: DType::QFloat(scheme(mode)),
        device: DEVICE,
        values: binding(10, &[2, 2], DType::U32),
        scales: Some(binding(11, &[2, 2], DType::F16)),
        biases: if biases { Some(binding(12, &[2, 2], DType::F16)) } else { None },
    }
}

#[test]
fn a_float_tensor_stays_as_it_is() {
    match dequantize(plain(5, &[3], DType::F32), DType::F16) {
        Dequantize::Unchanged(tensor) => {
            assert_eq!(tensor.values.handle, 5);
            assert!(matches!(tensor.dtype, DType::F32));
        }
        Dequantize::Launch(_) => panic!("nothing to dequantize"),
    }
}

#[test]
fn dequantization_reads_biases_of_affine_tensors_only() {
    for (mode, biases, bias) in [
        (QuantMode::Symmetric, false, None),
        (QuantMode::Symmetric, true, None),
        (QuantMode::Affine, false, None),
        (QuantMode::Affine, true, Some(12)),
    ] {
        match dequantize(quantized(mode, biases), DType::BF16) {
            Dequantize::Launch(launch) => {
                assert_eq!(launch.output.shape, vec![2, 8]);
                assert!(matches!(launch.output.dtype, DType::BF16));
                assert_eq!(launch.output.device, DEVICE);
                assert_eq!(launch.values.handle, 10);
                assert_eq!(launch.params.handle, 11);
                assert_eq!(launch.bias.map(|b| b.handle), bias);
                assert_eq!(launch.scheme.mode, mode);
                assert!(matches!(launch.dtype, DType::BF16));
            }
            Dequantize::Unchanged(_) => panic!("the tensor is quantized"),
        }
    }
}

#[test]
fn quantization_writes_biases_for_affine_schemes_only() {
    for (mode, bias, written) in [
        (QuantMode::Symmetric, None, false),
        (QuantMode::Symmetric, Some(3), false),
        (QuantMode::Affine, None, false),
        (QuantMode::Affine, Some(3), true),
    ] {
        let action = quantize(
            plain(1, &[2, 8], DType::F32),
            &scheme(mode),
            plain(2, &[2, 2], DType::F32),
            bias.map(|handle| plain(handle, &[2, 2], DType::F32)),
        );
        assert_eq!(action.output.shape, vec![2, 8]);
        assert_eq!(action.output.scheme.mode, mode);
        assert_eq!(action.output.device, DEVICE);
        let launch = action.allocated(quantized(mode, false));
        assert_eq!(launch.input.handle, 1);
        assert_eq!(launch.scale.handle, 2);
        assert_eq!(launch.out_values.handle, 10);
        assert_eq!(launch.out_params.handle, 11);
        assert_eq!(launch.scheme.mode, mode);
        assert!(matches!(launch.dtype, DType::F32));
        assert_eq!(launch.bias.map(|b| b.handle), bias);
        assert_eq!(launch.out_bias.is_some(), written);
        if let Some(empty) = launch.out_bias {
            assert_eq!(empty.shape, vec![2, 2]);
            assert!(matches!(empty.dtype, DType::F16));
            assert_eq!(empty.device, DEVICE);
        }
    }
}

#[test]
fn dequantization_reads_what_quantization_wrote() {
    for (mode, bias, read_bias) in [
        (QuantMode::Symmetric, None, None),
        (QuantMode::Symmetric, Some(3), None),
        (QuantMode::Affine, None, None),
        (QuantMode::Affine, Some(3), Some(20)),
    ] {
        let action = quantize(
            plain(1, &[2, 8], DType::F32),
            &scheme(mode),
            plain(2, &[2, 2], DType::F32),
            bias.map(|handle| plain(handle, &[2, 2], DType::F32)),
        );
        let launch = action.allocated(quantized(mode, false));
        let out_bias = launch.out_bias.map(|empty| binding(20, &empty.shape, empty.dtype));
        let result = finished(quantized(mode, false), out_bias);
        assert_eq!(result.biases.as_ref().map(|b| b.handle), read_bias);
        match dequantize(result, DType::F32) {
            Dequantize::Launch(read) => {
                assert_eq!(read.values.handle, launch.out_values.handle);
                assert_eq!(read.params.handle, launch.out_params.handle);
                assert_eq!(read.scheme.mode, mode);
                assert_eq!(read.output.shape, vec![2, 8]);
                if let Some(b) = &read.bias {
                    assert_eq!(b.shape, read.params.shape);
                    assert!(matches!(b.dtype, DType::F16));
                }
                assert_eq!(read.bias.map(|b| b.handle), read_bias);
            }
            Dequantize::Unchanged(_) => panic!("the tensor is quantized"),
        }
    }
}

#[test]
fn a_finished_tensor_keeps_the_biases_that_were_written() {
    let written = binding(21, &[2, 2], DType::F16);
    let result = finished(quantized(QuantMode::Affine, true), Some(written));
    assert_eq!(result.biases.map(|b| b.handle), Some(21));
    assert_eq!(result.values.handle, 10);
    assert_eq!(result.scales.map(|b| b.handle), Some(11));
    assert_eq!(result.shape, vec![2, 8]);
    assert_eq!(result.device, DEVICE);
    let result = finished(quantized(QuantMode::Symmetric, true), None);
    assert!(result.biases.is_none());
}
