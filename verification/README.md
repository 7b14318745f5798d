# rudnn

CPU neural-network operators whose index and accumulation logic is proved
with Verus.

## Layout

- `src/` — the verified library. Every kernel is generic over the element
  type; the scalar operations it needs (addition, multiply-accumulate,
  comparison, exponentials, samplers, matrix products) are closures handed
  in by the caller, and each contract states which of them were applied to
  which operands and in which order.
  - `pool/` — max, average and adaptive average pooling in 1, 2 and 3
    dimensions, and their gradients.
  - `conv/` — convolution (pointwise, depthwise, small-channel, direct and
    tiled im2col kernels, and the choice among them), deformable
    convolution and its gradients.
  - `activation.rs` — softmax along any axis, layer normalization.
  - `attention/` — scaled dot-product attention, naive and flash (tiled,
    online softmax) strategies, broadcast masks and biases.
  - `embedding.rs`, `interpolate.rs` (interpolation gradients along
    separable taps), `grid_sample.rs` (bicubic tap gathering).
  - `fold.rs`, `arith.rs`, `tensor.rs` — accumulation traces, offset
    arithmetic facts, the host tensor type.
- `app/` — the runtime-typed entry points: tensors tagged with their element
  kind, argument checks, the `gemm` matrix products, the floating-point
  element operations, and the element-wise activations (relu, leaky and parametric relu, sigmoid,
  hard and log sigmoid, and their gradients).
- `tests/` — tests of the library on concrete values.
