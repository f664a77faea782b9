//! Quantization of tensors: ranges and parameters, the buffers of the kernels, products with
//! quantized factors and their gradients, and log lines of training metrics.

pub mod adjoint;
pub mod autodiff;
pub mod backend;
pub mod blocks;
pub mod gradient;
pub mod kernel;
pub mod laws;
pub mod params;
pub mod range;
pub mod renderer;
pub mod repeated;
pub mod scheme;
pub mod shape;
pub mod sums;
pub mod tensor;
pub mod tracking;
