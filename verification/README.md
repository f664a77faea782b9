# burn_quant

Quantized tensors for training and inference, with contracts that Verus proves.

- `src/range.rs`, `src/blocks.rs`: the least and the greatest element of a tensor, or of each block
  of it.
- `src/params.rs`: scales, and for affine schemes biases, from such a range.
- `src/autodiff.rs`: matrix products with quantized factors. Float factors get gradients, quantized
  ones are frozen; the backward pass reads them as floats.
- `src/kernel.rs`: which buffers the quantization kernels of a device work on.
- `src/renderer.rs`: training metrics as lines of a log.
- `src/scheme.rs`, `src/tensor.rs`, `src/shape.rs`: quantization schemes and models of tensors.
- `src/backend.rs`: the operations that a tensor backend provides. Implement `BackendTypes` and
  `Backend` to use the library with tensors of your own.
- `src/laws.rs`, `src/gradient.rs`, `src/repeated.rs`: what holds of these functions taken
  together. Parameters represent every element that their range was taken from, and what the
  backward pass returns is the gradient of the product. That dequantization reads what
  quantization wrote stands in `src/kernel.rs`.
- `app/`: device memory and kernel launches, the log, and futures.

Block sizes and quantized ranges come from `cubecl`; their two contracts, in `src/scheme.rs`, are
trusted.
