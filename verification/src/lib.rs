//! Verified index and accumulation kernels for CPU neural-network operators:
//! pooling, convolution (regular and deformable), softmax and layer
//! normalization, attention, embeddings, interpolation gradients and bicubic
//! grid sampling over contiguous host tensors.
//!
//! The kernels are generic over the element type. The scalar operations
//! (addition, multiply-accumulate, comparison, exponentials, matrix
//! products, samplers) are handed in by the caller, and every contract says
//! which of them were applied to which operands, in which order.
pub mod arith;
pub mod fold;
pub mod tensor;
pub mod pool;
pub mod conv;
pub mod activation;
pub mod attention;
pub mod embedding;
pub mod interpolate;
pub mod grid_sample;
