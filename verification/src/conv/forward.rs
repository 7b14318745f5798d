//! Forward convolution entry points: the choice among the kernels, the
//! element-kind variants, and the 1D and 2D convolutions run as 3D ones.
use vstd::prelude::*;
use crate::tensor::{DType, HostTensor, shape_numel, lemma_numel_5};
use crate::arith::lemma_mul_nonneg;
use crate::pool::{converted, copy_shape, map_elements, shape_2d_as_3d, shape_1d_as_3d, squeeze_3d_to_2d, squeeze_3d_to_1d};
use crate::pool::max::{squeeze_shape_2d, squeeze_shape_1d, lemma_wf_2d_as_3d, lemma_wf_1d_as_3d, lemma_wf_squeeze_2d, lemma_wf_squeeze_1d};
use super::{
    ConvOptions, conv_out_len, conv_axis_ok, conv_geom, conv2d_in_3d_ok, bias_data, is_pointwise, is_depthwise,
    is_small_channel, is_direct, is_direct_shape, is_1x1_conv, should_use_depthwise_conv,
    should_use_small_channel_conv, should_use_direct_conv,
};
use super::depthwise::{depthwise_result, conv3d_depthwise_impl};
use super::small_channel::{small_channel_result, conv3d_small_channel_impl};
use super::pointwise::{pointwise_ok, pointwise_result, conv3d_1x1_impl};
use super::direct::{direct_ok, direct_result, conv3d_direct_impl};
use super::im2col::{conv3d_ok, conv_gemm_result, conv3d_impl, conv_patch_geom, conv_out_d};

verus! {

/// The kernels a forward convolution can run on.
#[derive(Clone, Copy, PartialEq, Eq, Debug, Structural)]
pub enum ConvPath {
    Pointwise,
    Depthwise,
    SmallChannel,
    Direct,
    Im2col,
}

/// The kernel a convolution runs on: the first that applies, in the order
/// pointwise, depthwise, small-channel, direct (where the element kind has
/// it), general.
pub open spec fn conv_path(x_shape: Seq<usize>, w_shape: Seq<usize>, options: ConvOptions<3>, direct: bool) -> ConvPath {
    if is_pointwise(w_shape[2] as int, w_shape[3] as int, w_shape[4] as int, options) {
        ConvPath::Pointwise
    } else if is_depthwise(x_shape, w_shape, options) {
        ConvPath::Depthwise
    } else if is_small_channel(x_shape, w_shape, options) {
        ConvPath::SmallChannel
    } else if direct && is_direct(x_shape, w_shape, options) {
        ConvPath::Direct
    } else {
        ConvPath::Im2col
    }
}

/// The shapes and options a 3D convolution accepts: those of the general
/// path, with products that fit in `usize`.
pub open spec fn conv3d_entry_ok(x_shape: Seq<usize>, w_shape: Seq<usize>, options: ConvOptions<3>) -> bool {
    let g = conv_patch_geom(x_shape, w_shape, options);
    let spatial = conv_out_d(x_shape, w_shape, options) * g.out_h * g.out_w;
    &&& conv3d_ok(x_shape, w_shape, options)
    &&& x_shape[0] * x_shape[1] <= usize::MAX
    &&& w_shape[0] * x_shape[1] <= usize::MAX
    &&& w_shape[0] * spatial <= usize::MAX
    &&& x_shape[0] * x_shape[1] * x_shape[2] * x_shape[3] * x_shape[4] <= usize::MAX
}

/// The bias a convolution accepts: one element per output channel on the
/// depthwise and small-channel kernels, at least that many on the others.
pub open spec fn conv_bias_ok<T>(path: ConvPath, bias: Option<HostTensor<T>>, c_out: int) -> bool {
    match bias {
        Option::None => true,
        Option::Some(b) => match path {
            ConvPath::Depthwise | ConvPath::SmallChannel => b.data@.len() == c_out,
            _ => b.data@.len() >= c_out,
        },
    }
}

/// The output shape `[batch, c_out, out_d, out_h, out_w]` of a convolution.
pub open spec fn conv3d_out_shape(x_shape: Seq<usize>, w_shape: Seq<usize>, options: ConvOptions<3>) -> Seq<usize> {
    let g = conv_patch_geom(x_shape, w_shape, options);
    seq![x_shape[0], w_shape[0], conv_out_d(x_shape, w_shape, options) as usize, g.out_h, g.out_w]
}

/// `out` is a forward convolution of `x` with `w`, as the kernel the
/// convolution runs on computes it.
pub open spec fn conv3d_result<
    T,
    M: Fn(T, T, T) -> T,
    A: Fn(T, T) -> T,
    G: Fn(&[T], &[T], usize, usize, usize) -> Vec<T>,
    H: Fn(&[T], &[T], usize, usize, usize) -> Vec<T>,
>(
    mac: M,
    add: A,
    gemm_nt: G,
    gemm_nn: H,
    zero: T,
    direct: bool,
    x: Seq<T>,
    x_shape: Seq<usize>,
    w: Seq<T>,
    w_shape: Seq<usize>,
    bias: Option<Seq<T>>,
    options: ConvOptions<3>,
    out: Seq<T>,
) -> bool {
    match conv_path(x_shape, w_shape, options, direct) {
        ConvPath::Pointwise => pointwise_result(gemm_nn, add, x, x_shape, w, w_shape, bias, options, out),
        ConvPath::Depthwise => depthwise_result(mac, add, zero, x, x_shape, w, w_shape, bias, options, out),
        ConvPath::SmallChannel => small_channel_result(mac, add, zero, x, x_shape, w, w_shape, bias, options, out),
        ConvPath::Direct => direct_result(gemm_nn, add, x, x_shape, w, w_shape, bias, options, out),
        ConvPath::Im2col => conv_gemm_result(gemm_nt, add, zero, x, x_shape, w, w_shape, bias, options, out),
    }
}

/// Choose the kernel a convolution runs on.
pub fn select_conv_path(x_shape: &[usize], w_shape: &[usize], options: &ConvOptions<3>, direct: bool) -> (r: ConvPath)
    requires
        conv3d_ok(x_shape@, w_shape@, *options),
    ensures
        r == conv_path(x_shape@, w_shape@, *options, direct),
{
    if is_1x1_conv(w_shape[2], w_shape[3], w_shape[4], options) {
        return ConvPath::Pointwise;
    }
    if should_use_depthwise_conv(x_shape, w_shape, options) {
        return ConvPath::Depthwise;
    }
    if should_use_small_channel_conv(x_shape, w_shape, options) {
        return ConvPath::SmallChannel;
    }
    if direct && should_use_direct_conv(x_shape, w_shape, options) {
        return ConvPath::Direct;
    }
    ConvPath::Im2col
}

/// Along an axis with a kernel of one tap, unit stride and no padding, the
/// output is as long as the input.
proof fn lemma_unit_axis(stride: int, dilation: int, size: int)
    requires
        conv_axis_ok(1, stride, 0, dilation, size),
    ensures
        conv_out_len(1, stride, 0, dilation, size) == (size - 1) / stride + 1,
        stride == 1 ==> conv_out_len(1, stride, 0, dilation, size) == size,
        size == 1 ==> conv_out_len(1, stride, 0, dilation, size) == 1,
{
    assert(dilation * (1 - 1) == 0) by (nonlinear_arith);
    if size == 1 {
        assert(0int / stride == 0) by (nonlinear_arith)
            requires stride >= 1;
    }
}

/// What each kernel requires follows from what a convolution accepts, and
/// each kernel's output shape is the convolution's.
proof fn lemma_path_requirements(x_shape: Seq<usize>, w_shape: Seq<usize>, options: ConvOptions<3>)
    requires
        conv3d_entry_ok(x_shape, w_shape, options),
    ensures
        is_pointwise(w_shape[2] as int, w_shape[3] as int, w_shape[4] as int, options) ==> pointwise_ok(x_shape, w_shape, options)
            && conv3d_out_shape(x_shape, w_shape, options) == seq![x_shape[0], w_shape[0], x_shape[2], x_shape[3], x_shape[4]],
        is_depthwise(x_shape, w_shape, options) ==> conv2d_in_3d_ok(x_shape, w_shape, options, x_shape[1] as int)
            && conv3d_out_shape(x_shape, w_shape, options) == seq![
                x_shape[0],
                x_shape[1],
                1usize,
                conv_geom(x_shape, w_shape, options).out_h,
                conv_geom(x_shape, w_shape, options).out_w,
            ],
        is_small_channel(x_shape, w_shape, options) ==> conv2d_in_3d_ok(x_shape, w_shape, options, w_shape[0] as int)
            && w_shape[1] == x_shape[1]
            && conv3d_out_shape(x_shape, w_shape, options) == seq![
                x_shape[0],
                w_shape[0],
                1usize,
                conv_geom(x_shape, w_shape, options).out_h,
                conv_geom(x_shape, w_shape, options).out_w,
            ],
        is_direct(x_shape, w_shape, options) ==> direct_ok(x_shape, w_shape, options)
            && conv3d_out_shape(x_shape, w_shape, options) == seq![
                x_shape[0],
                w_shape[0],
                1usize,
                1usize,
                conv_out_len(w_shape[4] as int, options.stride[2] as int, 0, 1, x_shape[4] as int) as usize,
            ],
{
    let g = conv_patch_geom(x_shape, w_shape, options);
    let out_d = conv_out_d(x_shape, w_shape, options);
    let x0 = x_shape[0] as int;
    let x1 = x_shape[1] as int;
    let x2 = x_shape[2] as int;
    let x3 = x_shape[3] as int;
    let x4 = x_shape[4] as int;
    let w0 = w_shape[0] as int;
    let w1 = w_shape[1] as int;
    let w2 = w_shape[2] as int;
    let w3 = w_shape[3] as int;
    let w4 = w_shape[4] as int;
    lemma_mul_nonneg(x0, x1);
    lemma_mul_nonneg(w0, w1);
    lemma_mul_nonneg(g.out_h as int, g.out_w as int);
    lemma_mul_nonneg(x3, x4);
    lemma_mul_nonneg(w3, w4);
    if is_pointwise(w_shape[2] as int, w_shape[3] as int, w_shape[4] as int, options) {
        lemma_unit_axis(options.stride[0] as int, options.dilation[0] as int, x2);
        lemma_unit_axis(options.stride[1] as int, options.dilation[1] as int, x3);
        lemma_unit_axis(options.stride[2] as int, options.dilation[2] as int, x4);
        assert(x1 * (x2 * x3 * x4) == x2 * x3 * x4 * x1) by (nonlinear_arith);
    }
    if is_depthwise(x_shape, w_shape, options) || is_small_channel(x_shape, w_shape, options) {
        lemma_unit_axis(options.stride[0] as int, options.dilation[0] as int, x2);
        assert(out_d == 1);
        assert(w2 * w3 * w4 == w3 * w4) by (nonlinear_arith)
            requires w2 == 1;
        assert(x2 * x3 * x4 * x1 == x1 * (x3 * x4)) by (nonlinear_arith)
            requires x2 == 1;
        assert(out_d * g.out_h * g.out_w == g.out_h * g.out_w) by (nonlinear_arith)
            requires out_d == 1;
        assert(w1 * (w2 * w3 * w4) == w1 * (w3 * w4));
    }
    if is_small_channel(x_shape, w_shape, options) {
        assert(x1 == w1) by (nonlinear_arith)
            requires x1 == options.groups * w1, options.groups == 1;
    }
    if is_direct(x_shape, w_shape, options) {
        lemma_unit_axis(options.stride[0] as int, 1, x2);
        lemma_unit_axis(options.stride[1] as int, 1, x3);
        assert(out_d == 1);
        assert(g.out_h == 1);
        assert(x1 == w1) by (nonlinear_arith)
            requires x1 == options.groups * w1, options.groups == 1;
        assert(out_d * g.out_h * g.out_w == g.out_w) by (nonlinear_arith)
            requires out_d == 1, g.out_h == 1;
        let n = x4 - w4;
        assert(n / (options.stride[2] as int) <= n) by (nonlinear_arith)
            requires n >= 0, options.stride[2] >= 1;
        assert(g.out_w <= x4);
        assert(x2 * x3 * x4 * x1 == x1 * x4) by (nonlinear_arith)
            requires x2 == 1, x3 == 1;
        assert(x1 * g.out_w <= x1 * x4) by (nonlinear_arith)
            requires g.out_w <= x4, x1 >= 0;
        assert(x0 * x1 * x2 * x3 * x4 == x0 * x1 * x4) by (nonlinear_arith)
            requires x2 == 1, x3 == 1;
    }
}

/// What a convolution requires of its element operations: the
/// multiply-accumulate and addition accept every operand, and each product
/// accepts every operand and is `m * n` long.
pub open spec fn conv_ops_ok<
    T,
    M: Fn(T, T, T) -> T,
    A: Fn(T, T) -> T,
    G: Fn(&[T], &[T], usize, usize, usize) -> Vec<T>,
    H: Fn(&[T], &[T], usize, usize, usize) -> Vec<T>,
>(mac: M, add: A, gemm_nt: G, gemm_nn: H) -> bool {
    &&& forall|a: T, b: T, c: T| call_requires(mac, (a, b, c))
    &&& forall|a: T, b: T| call_requires(add, (a, b))
    &&& forall|a: &[T], b: &[T], m: usize, k: usize, n: usize| call_requires(gemm_nt, (a, b, m, k, n))
    &&& forall|a: &[T], b: &[T], m: usize, k: usize, n: usize, p: Vec<T>|
        call_ensures(gemm_nt, (a, b, m, k, n), p) ==> p@.len() == m * n
    &&& forall|a: &[T], b: &[T], m: usize, k: usize, n: usize| call_requires(gemm_nn, (a, b, m, k, n))
    &&& forall|a: &[T], b: &[T], m: usize, k: usize, n: usize, p: Vec<T>|
        call_ensures(gemm_nn, (a, b, m, k, n), p) ==> p@.len() == m * n
}

/// A 3D convolution with the 1x1, depthwise, small-channel and (where
/// `direct`) direct fast paths, falling back to the general path. Products
/// with a transposed right operand (`[n, k]`) go to `gemm_nt`, those with a
/// plain one (`[k, n]`) to `gemm_nn`.
fn conv3d_run<
    T: Copy,
    M: Fn(T, T, T) -> T,
    A: Fn(T, T) -> T,
    G: Fn(&[T], &[T], usize, usize, usize) -> Vec<T>,
    H: Fn(&[T], &[T], usize, usize, usize) -> Vec<T>,
>(
    x: HostTensor<T>,
    weight: HostTensor<T>,
    bias: Option<HostTensor<T>>,
    options: &ConvOptions<3>,
    dtype: DType,
    direct: bool,
    zero: T,
    mac: &M,
    add_fn: &A,
    gemm_nt: &G,
    gemm_nn: &H,
) -> (r: HostTensor<T>)
    requires
        x.wf(),
        weight.wf(),
        conv3d_entry_ok(x.shape@, weight.shape@, *options),
        conv_bias_ok(conv_path(x.shape@, weight.shape@, *options, direct), bias, weight.shape@[0] as int),
        conv_ops_ok(*mac, *add_fn, *gemm_nt, *gemm_nn),
    ensures
        r.shape@ == conv3d_out_shape(x.shape@, weight.shape@, *options),
        r.dtype == dtype,
        r.wf(),
        conv3d_result(*mac, *add_fn, *gemm_nt, *gemm_nn, zero, direct, x.data@, x.shape@, weight.data@, weight.shape@, bias_data(bias), *options, r.data@),
{
    let path = select_conv_path(x.shape.as_slice(), weight.shape.as_slice(), options, direct);
    proof {
        lemma_path_requirements(x.shape@, weight.shape@, *options);
    }
    match path {
        ConvPath::Pointwise => conv3d_1x1_impl(x, weight, bias, options, dtype, gemm_nn, add_fn),
        ConvPath::Depthwise => conv3d_depthwise_impl(x, weight, bias, options, dtype, zero, mac, add_fn),
        ConvPath::SmallChannel => conv3d_small_channel_impl(x, weight, bias, options, dtype, zero, mac, add_fn),
        ConvPath::Direct => conv3d_direct_impl(x, weight, bias, options, dtype, gemm_nn, add_fn),
        ConvPath::Im2col => conv3d_impl(x, weight, bias, options, dtype, zero, gemm_nt, add_fn),
    }
}

/// 3D convolution of f32-tagged tensors.
pub fn conv3d_f32<
    T: Copy,
    M: Fn(T, T, T) -> T,
    A: Fn(T, T) -> T,
    G: Fn(&[T], &[T], usize, usize, usize) -> Vec<T>,
    H: Fn(&[T], &[T], usize, usize, usize) -> Vec<T>,
>(
    x: HostTensor<T>,
    weight: HostTensor<T>,
    bias: Option<HostTensor<T>>,
    options: &ConvOptions<3>,
    zero: T,
    mac: &M,
    add_fn: &A,
    gemm_nt: &G,
    gemm_nn: &H,
) -> (r: HostTensor<T>)
    requires
        x.wf(),
        weight.wf(),
        conv3d_entry_ok(x.shape@, weight.shape@, *options),
        conv_bias_ok(conv_path(x.shape@, weight.shape@, *options, true), bias, weight.shape@[0] as int),
        conv_ops_ok(*mac, *add_fn, *gemm_nt, *gemm_nn),
    ensures
        r.shape@ == conv3d_out_shape(x.shape@, weight.shape@, *options),
        r.dtype == DType::F32,
        r.wf(),
        conv3d_result(*mac, *add_fn, *gemm_nt, *gemm_nn, zero, true, x.data@, x.shape@, weight.data@, weight.shape@, bias_data(bias), *options, r.data@),
{
    conv3d_run(x, weight, bias, options, DType::F32, true, zero, mac, add_fn, gemm_nt, gemm_nn)
}

/// 3D convolution of f64-tagged tensors.
pub fn conv3d_f64<
    T: Copy,
    M: Fn(T, T, T) -> T,
    A: Fn(T, T) -> T,
    G: Fn(&[T], &[T], usize, usize, usize) -> Vec<T>,
    H: Fn(&[T], &[T], usize, usize, usize) -> Vec<T>,
>(
    x: HostTensor<T>,
    weight: HostTensor<T>,
    bias: Option<HostTensor<T>>,
    options: &ConvOptions<3>,
    zero: T,
    mac: &M,
    add_fn: &A,
    gemm_nt: &G,
    gemm_nn: &H,
) -> (r: HostTensor<T>)
    requires
        x.wf(),
        weight.wf(),
        conv3d_entry_ok(x.shape@, weight.shape@, *options),
        conv_bias_ok(conv_path(x.shape@, weight.shape@, *options, true), bias, weight.shape@[0] as int),
        conv_ops_ok(*mac, *add_fn, *gemm_nt, *gemm_nn),
    ensures
        r.shape@ == conv3d_out_shape(x.shape@, weight.shape@, *options),
        r.dtype == DType::F64,
        r.wf(),
        conv3d_result(*mac, *add_fn, *gemm_nt, *gemm_nn, zero, true, x.data@, x.shape@, weight.data@, weight.shape@, bias_data(bias), *options, r.data@),
{
    conv3d_run(x, weight, bias, options, DType::F64, true, zero, mac, add_fn, gemm_nt, gemm_nn)
}

/// 3D convolution of f16-tagged tensors (no direct path).
pub fn conv3d_f16<
    T: Copy,
    M: Fn(T, T, T) -> T,
    A: Fn(T, T) -> T,
    G: Fn(&[T], &[T], usize, usize, usize) -> Vec<T>,
    H: Fn(&[T], &[T], usize, usize, usize) -> Vec<T>,
>(
    x: HostTensor<T>,
    weight: HostTensor<T>,
    bias: Option<HostTensor<T>>,
    options: &ConvOptions<3>,
    zero: T,
    mac: &M,
    add_fn: &A,
    gemm_nt: &G,
    gemm_nn: &H,
) -> (r: HostTensor<T>)
    requires
        x.wf(),
        weight.wf(),
        conv3d_entry_ok(x.shape@, weight.shape@, *options),
        conv_bias_ok(conv_path(x.shape@, weight.shape@, *options, false), bias, weight.shape@[0] as int),
        conv_ops_ok(*mac, *add_fn, *gemm_nt, *gemm_nn),
    ensures
        r.shape@ == conv3d_out_shape(x.shape@, weight.shape@, *options),
        r.dtype == DType::F16,
        r.wf(),
        conv3d_result(*mac, *add_fn, *gemm_nt, *gemm_nn, zero, false, x.data@, x.shape@, weight.data@, weight.shape@, bias_data(bias), *options, r.data@),
{
    conv3d_run(x, weight, bias, options, DType::F16, false, zero, mac, add_fn, gemm_nt, gemm_nn)
}

/// The optional bias `wide` holds, element by element, a value `f` may
/// return for the element of `bias`.
pub open spec fn bias_converted<S, T, U: Fn(S) -> T>(f: U, bias: Option<Seq<S>>, wide: Option<Seq<T>>) -> bool {
    match (bias, wide) {
        (Option::None, Option::None) => true,
        (Option::Some(b), Option::Some(w)) => converted(f, b, w),
        _ => false,
    }
}

/// `out` is a convolution computed on widened elements and narrowed back:
/// inputs, kernel and bias widened with `to_f32`, convolved as f32-tagged
/// tensors are, and the result narrowed with `from_f32`.
pub open spec fn conv3d_result_narrowed<
    S,
    T,
    M: Fn(T, T, T) -> T,
    A: Fn(T, T) -> T,
    G: Fn(&[T], &[T], usize, usize, usize) -> Vec<T>,
    H: Fn(&[T], &[T], usize, usize, usize) -> Vec<T>,
    U: Fn(S) -> T,
    N: Fn(T) -> S,
>(
    mac: M,
    add: A,
    gemm_nt: G,
    gemm_nn: H,
    to_f32: U,
    from_f32: N,
    zero: T,
    x: Seq<S>,
    x_shape: Seq<usize>,
    w: Seq<S>,
    w_shape: Seq<usize>,
    bias: Option<Seq<S>>,
    options: ConvOptions<3>,
    out: Seq<S>,
) -> bool {
    exists|wx: Seq<T>, ww: Seq<T>, wb: Option<Seq<T>>, wo: Seq<T>|
        {
            &&& converted(to_f32, x, wx)
            &&& converted(to_f32, w, ww)
            &&& bias_converted(to_f32, bias, wb)
            &&& #[trigger] conv3d_result(mac, add, gemm_nt, gemm_nn, zero, true, wx, x_shape, ww, w_shape, wb, options, wo)
            &&& converted(from_f32, wo, out)
        }
}

/// A tensor's elements widened with `to_f32`, tagged f32.
fn widen<S: Copy, T, U: Fn(S) -> T>(x: &HostTensor<S>, to_f32: &U) -> (r: HostTensor<T>)
    requires
        forall|a: S| call_requires(*to_f32, (a,)),
    ensures
        r.shape@ == x.shape@,
        r.dtype == DType::F32,
        converted(*to_f32, x.data@, r.data@),
{
    HostTensor::new(map_elements(&x.data, to_f32), copy_shape(&x.shape), DType::F32)
}

/// 3D convolution of bf16-tagged tensors, computed as f32-tagged ones.
pub fn conv3d_bf16<
    S: Copy,
    T: Copy,
    M: Fn(T, T, T) -> T,
    A: Fn(T, T) -> T,
    G: Fn(&[T], &[T], usize, usize, usize) -> Vec<T>,
    H: Fn(&[T], &[T], usize, usize, usize) -> Vec<T>,
    U: Fn(S) -> T,
    N: Fn(T) -> S,
>(
    x: HostTensor<S>,
    weight: HostTensor<S>,
    bias: Option<HostTensor<S>>,
    options: &ConvOptions<3>,
    zero: T,
    mac: &M,
    add_fn: &A,
    gemm_nt: &G,
    gemm_nn: &H,
    to_f32: &U,
    from_f32: &N,
) -> (r: HostTensor<S>)
    requires
        x.wf(),
        weight.wf(),
        conv3d_entry_ok(x.shape@, weight.shape@, *options),
        conv_bias_ok(conv_path(x.shape@, weight.shape@, *options, true), bias, weight.shape@[0] as int),
        conv_ops_ok(*mac, *add_fn, *gemm_nt, *gemm_nn),
        forall|a: S| call_requires(*to_f32, (a,)),
        forall|a: T| call_requires(*from_f32, (a,)),
    ensures
        r.shape@ == conv3d_out_shape(x.shape@, weight.shape@, *options),
        r.dtype == DType::BF16,
        r.wf(),
        conv3d_result_narrowed(*mac, *add_fn, *gemm_nt, *gemm_nn, *to_f32, *from_f32, zero, x.data@, x.shape@, weight.data@, weight.shape@, bias_data(bias), *options, r.data@),
{
    let wx = widen(&x, to_f32);
    let ww = widen(&weight, to_f32);
    let wb = match &bias {
        Option::Some(b) => Option::Some(widen(b, to_f32)),
        Option::None => Option::None,
    };
    proof {
        assert(bias_converted(*to_f32, bias_data(bias), bias_data(wb)));
    }
    let out = conv3d_f32(wx, ww, wb, options, zero, mac, add_fn, gemm_nt, gemm_nn);
    let data = map_elements(&out.data, from_f32);
    let r = HostTensor::new(data, copy_shape(&out.shape), DType::BF16);
    proof {
        assert(conv3d_result(*mac, *add_fn, *gemm_nt, *gemm_nn, zero, true, wx.data@, x.shape@, ww.data@, weight.shape@, bias_data(wb), *options, out.data@));
    }
    r
}

/// The 3D options a 2D convolution runs with: a unit depth axis.
pub open spec fn options_2d_as_3d(o: ConvOptions<2>) -> ConvOptions<3> {
    ConvOptions {
        stride: [1usize, o.stride[0], o.stride[1]],
        padding: [0usize, o.padding[0], o.padding[1]],
        dilation: [1usize, o.dilation[0], o.dilation[1]],
        groups: o.groups,
    }
}

/// The 3D options a 1D convolution runs with: unit depth and height axes.
pub open spec fn options_1d_as_3d(o: ConvOptions<1>) -> ConvOptions<3> {
    ConvOptions {
        stride: [1usize, 1usize, o.stride[0]],
        padding: [0usize, 0usize, o.padding[0]],
        dilation: [1usize, 1usize, o.dilation[0]],
        groups: o.groups,
    }
}

/// A 2D convolution's input and kernel as 3D tensors with a unit depth
/// axis, and its options as 3D ones.
fn expand_2d_to_3d<T>(x: HostTensor<T>, weight: HostTensor<T>, options: &ConvOptions<2>) -> (r: (HostTensor<T>, HostTensor<T>, ConvOptions<3>))
    requires
        x.shape@.len() == 4,
        weight.shape@.len() == 4,
    ensures
        r.0.shape@ == shape_2d_as_3d(x.shape@),
        r.0.data@ == x.data@,
        r.0.dtype == x.dtype,
        r.1.shape@ == shape_2d_as_3d(weight.shape@),
        r.1.data@ == weight.data@,
        r.1.dtype == weight.dtype,
        r.2 == options_2d_as_3d(*options),
{
    let xs = vec![x.shape[0], x.shape[1], 1, x.shape[2], x.shape[3]];
    let ws = vec![weight.shape[0], weight.shape[1], 1, weight.shape[2], weight.shape[3]];
    let x_3d = x.reshape(xs);
    let weight_3d = weight.reshape(ws);
    let options_3d = ConvOptions::new(
        [1, options.stride[0], options.stride[1]],
        [0, options.padding[0], options.padding[1]],
        [1, options.dilation[0], options.dilation[1]],
        options.groups,
    );
    (x_3d, weight_3d, options_3d)
}

/// A 1D convolution's input and kernel as 3D tensors with unit depth and
/// height axes, and its options as 3D ones.
fn expand_1d_to_3d<T>(x: HostTensor<T>, weight: HostTensor<T>, options: &ConvOptions<1>) -> (r: (HostTensor<T>, HostTensor<T>, ConvOptions<3>))
    requires
        x.shape@.len() == 3,
        weight.shape@.len() == 3,
    ensures
        r.0.shape@ == shape_1d_as_3d(x.shape@),
        r.0.data@ == x.data@,
        r.0.dtype == x.dtype,
        r.1.shape@ == shape_1d_as_3d(weight.shape@),
        r.1.data@ == weight.data@,
        r.1.dtype == weight.dtype,
        r.2 == options_1d_as_3d(*options),
{
    let xs = vec![x.shape[0], x.shape[1], 1, 1, x.shape[2]];
    let ws = vec![weight.shape[0], weight.shape[1], 1, 1, weight.shape[2]];
    let x_3d = x.reshape(xs);
    let weight_3d = weight.reshape(ws);
    let options_3d = ConvOptions::new(
        [1, 1, options.stride[0]],
        [0, 0, options.padding[0]],
        [1, 1, options.dilation[0]],
        options.groups,
    );
    (x_3d, weight_3d, options_3d)
}

/// A 2D convolution run as a 3D one over a unit depth axis.
fn conv2d_run<
    T: Copy,
    M: Fn(T, T, T) -> T,
    A: Fn(T, T) -> T,
    G: Fn(&[T], &[T], usize, usize, usize) -> Vec<T>,
    H: Fn(&[T], &[T], usize, usize, usize) -> Vec<T>,
>(
    x: HostTensor<T>,
    weight: HostTensor<T>,
    bias: Option<HostTensor<T>>,
    options: &ConvOptions<2>,
    dtype: DType,
    direct: bool,
    zero: T,
    mac: &M,
    add_fn: &A,
    gemm_nt: &G,
    gemm_nn: &H,
) -> (r: HostTensor<T>)
    requires
        x.wf(),
        weight.wf(),
        x.shape@.len() == 4,
        weight.shape@.len() == 4,
        conv3d_entry_ok(shape_2d_as_3d(x.shape@), shape_2d_as_3d(weight.shape@), options_2d_as_3d(*options)),
        conv_bias_ok(conv_path(shape_2d_as_3d(x.shape@), shape_2d_as_3d(weight.shape@), options_2d_as_3d(*options), direct), bias, weight.shape@[0] as int),
        conv_ops_ok(*mac, *add_fn, *gemm_nt, *gemm_nn),
    ensures
        r.shape@ == squeeze_shape_2d(conv3d_out_shape(shape_2d_as_3d(x.shape@), shape_2d_as_3d(weight.shape@), options_2d_as_3d(*options))),
        r.dtype == dtype,
        r.wf(),
        conv3d_result(*mac, *add_fn, *gemm_nt, *gemm_nn, zero, direct, x.data@, shape_2d_as_3d(x.shape@), weight.data@, shape_2d_as_3d(weight.shape@), bias_data(bias), options_2d_as_3d(*options), r.data@),
{
    proof {
        lemma_wf_2d_as_3d(x.shape@);
        lemma_wf_2d_as_3d(weight.shape@);
    }
    let (x_3d, weight_3d, options_3d) = expand_2d_to_3d(x, weight, options);
    let out = conv3d_run(x_3d, weight_3d, bias, &options_3d, dtype, direct, zero, mac, add_fn, gemm_nt, gemm_nn);
    proof {
        lemma_unit_axis(1, 1, 1);
        lemma_wf_squeeze_2d(out.shape@);
    }
    squeeze_3d_to_2d(out)
}

/// A 1D convolution run as a 3D one over unit depth and height axes.
fn conv1d_run<
    T: Copy,
    M: Fn(T, T, T) -> T,
    A: Fn(T, T) -> T,
    G: Fn(&[T], &[T], usize, usize, usize) -> Vec<T>,
    H: Fn(&[T], &[T], usize, usize, usize) -> Vec<T>,
>(
    x: HostTensor<T>,
    weight: HostTensor<T>,
    bias: Option<HostTensor<T>>,
    options: &ConvOptions<1>,
    dtype: DType,
    direct: bool,
    zero: T,
    mac: &M,
    add_fn: &A,
    gemm_nt: &G,
    gemm_nn: &H,
) -> (r: HostTensor<T>)
    requires
        x.wf(),
        weight.wf(),
        x.shape@.len() == 3,
        weight.shape@.len() == 3,
        conv3d_entry_ok(shape_1d_as_3d(x.shape@), shape_1d_as_3d(weight.shape@), options_1d_as_3d(*options)),
        conv_bias_ok(conv_path(shape_1d_as_3d(x.shape@), shape_1d_as_3d(weight.shape@), options_1d_as_3d(*options), direct), bias, weight.shape@[0] as int),
        conv_ops_ok(*mac, *add_fn, *gemm_nt, *gemm_nn),
    ensures
        r.shape@ == squeeze_shape_1d(conv3d_out_shape(shape_1d_as_3d(x.shape@), shape_1d_as_3d(weight.shape@), options_1d_as_3d(*options))),
        r.dtype == dtype,
        r.wf(),
        conv3d_result(*mac, *add_fn, *gemm_nt, *gemm_nn, zero, direct, x.data@, shape_1d_as_3d(x.shape@), weight.data@, shape_1d_as_3d(weight.shape@), bias_data(bias), options_1d_as_3d(*options), r.data@),
{
    proof {
        lemma_wf_1d_as_3d(x.shape@);
        lemma_wf_1d_as_3d(weight.shape@);
    }
    let (x_3d, weight_3d, options_3d) = expand_1d_to_3d(x, weight, options);
    let out = conv3d_run(x_3d, weight_3d, bias, &options_3d, dtype, direct, zero, mac, add_fn, gemm_nt, gemm_nn);
    proof {
        lemma_unit_axis(1, 1, 1);
        lemma_wf_squeeze_1d(out.shape@);
    }
    squeeze_3d_to_1d(out)
}

/// 2D convolution of f32-tagged tensors.
pub fn conv2d_f32<
    T: Copy,
    M: Fn(T, T, T) -> T,
    A: Fn(T, T) -> T,
    G: Fn(&[T], &[T], usize, usize, usize) -> Vec<T>,
    H: Fn(&[T], &[T], usize, usize, usize) -> Vec<T>,
>(
    x: HostTensor<T>,
    weight: HostTensor<T>,
    bias: Option<HostTensor<T>>,
    options: &ConvOptions<2>,
    zero: T,
    mac: &M,
    add_fn: &A,
    gemm_nt: &G,
    gemm_nn: &H,
) -> (r: HostTensor<T>)
    requires
        x.wf(),
        weight.wf(),
        x.shape@.len() == 4,
        weight.shape@.len() == 4,
        conv3d_entry_ok(shape_2d_as_3d(x.shape@), shape_2d_as_3d(weight.shape@), options_2d_as_3d(*options)),
        conv_bias_ok(conv_path(shape_2d_as_3d(x.shape@), shape_2d_as_3d(weight.shape@), options_2d_as_3d(*options), true), bias, weight.shape@[0] as int),
        conv_ops_ok(*mac, *add_fn, *gemm_nt, *gemm_nn),
    ensures
        r.shape@ == squeeze_shape_2d(conv3d_out_shape(shape_2d_as_3d(x.shape@), shape_2d_as_3d(weight.shape@), options_2d_as_3d(*options))),
        r.dtype == DType::F32,
        r.wf(),
        conv3d_result(*mac, *add_fn, *gemm_nt, *gemm_nn, zero, true, x.data@, shape_2d_as_3d(x.shape@), weight.data@, shape_2d_as_3d(weight.shape@), bias_data(bias), options_2d_as_3d(*options), r.data@),
{
    conv2d_run(x, weight, bias, options, DType::F32, true, zero, mac, add_fn, gemm_nt, gemm_nn)
}

/// 2D convolution of f64-tagged tensors.
pub fn conv2d_f64<
    T: Copy,
    M: Fn(T, T, T) -> T,
    A: Fn(T, T) -> T,
    G: Fn(&[T], &[T], usize, usize, usize) -> Vec<T>,
    H: Fn(&[T], &[T], usize, usize, usize) -> Vec<T>,
>(
    x: HostTensor<T>,
    weight: HostTensor<T>,
    bias: Option<HostTensor<T>>,
    options: &ConvOptions<2>,
    zero: T,
    mac: &M,
    add_fn: &A,
    gemm_nt: &G,
    gemm_nn: &H,
) -> (r: HostTensor<T>)
    requires
        x.wf(),
        weight.wf(),
        x.shape@.len() == 4,
        weight.shape@.len() == 4,
        conv3d_entry_ok(shape_2d_as_3d(x.shape@), shape_2d_as_3d(weight.shape@), options_2d_as_3d(*options)),
        conv_bias_ok(conv_path(shape_2d_as_3d(x.shape@), shape_2d_as_3d(weight.shape@), options_2d_as_3d(*options), true), bias, weight.shape@[0] as int),
        conv_ops_ok(*mac, *add_fn, *gemm_nt, *gemm_nn),
    ensures
        r.shape@ == squeeze_shape_2d(conv3d_out_shape(shape_2d_as_3d(x.shape@), shape_2d_as_3d(weight.shape@), options_2d_as_3d(*options))),
        r.dtype == DType::F64,
        r.wf(),
        conv3d_result(*mac, *add_fn, *gemm_nt, *gemm_nn, zero, true, x.data@, shape_2d_as_3d(x.shape@), weight.data@, shape_2d_as_3d(weight.shape@), bias_data(bias), options_2d_as_3d(*options), r.data@),
{
    conv2d_run(x, weight, bias, options, DType::F64, true, zero, mac, add_fn, gemm_nt, gemm_nn)
}

/// 2D convolution of f16-tagged tensors (no direct path).
pub fn conv2d_f16<
    T: Copy,
    M: Fn(T, T, T) -> T,
    A: Fn(T, T) -> T,
    G: Fn(&[T], &[T], usize, usize, usize) -> Vec<T>,
    H: Fn(&[T], &[T], usize, usize, usize) -> Vec<T>,
>(
    x: HostTensor<T>,
    weight: HostTensor<T>,
    bias: Option<HostTensor<T>>,
    options: &ConvOptions<2>,
    zero: T,
    mac: &M,
    add_fn: &A,
    gemm_nt: &G,
    gemm_nn: &H,
) -> (r: HostTensor<T>)
    requires
        x.wf(),
        weight.wf(),
        x.shape@.len() == 4,
        weight.shape@.len() == 4,
        conv3d_entry_ok(shape_2d_as_3d(x.shape@), shape_2d_as_3d(weight.shape@), options_2d_as_3d(*options)),
        conv_bias_ok(conv_path(shape_2d_as_3d(x.shape@), shape_2d_as_3d(weight.shape@), options_2d_as_3d(*options), false), bias, weight.shape@[0] as int),
        conv_ops_ok(*mac, *add_fn, *gemm_nt, *gemm_nn),
    ensures
        r.shape@ == squeeze_shape_2d(conv3d_out_shape(shape_2d_as_3d(x.shape@), shape_2d_as_3d(weight.shape@), options_2d_as_3d(*options))),
        r.dtype == DType::F16,
        r.wf(),
        conv3d_result(*mac, *add_fn, *gemm_nt, *gemm_nn, zero, false, x.data@, shape_2d_as_3d(x.shape@), weight.data@, shape_2d_as_3d(weight.shape@), bias_data(bias), options_2d_as_3d(*options), r.data@),
{
    conv2d_run(x, weight, bias, options, DType::F16, false, zero, mac, add_fn, gemm_nt, gemm_nn)
}

/// 2D convolution of bf16-tagged tensors, computed as f32-tagged ones.
pub fn conv2d_bf16<
    S: Copy,
    T: Copy,
    M: Fn(T, T, T) -> T,
    A: Fn(T, T) -> T,
    G: Fn(&[T], &[T], usize, usize, usize) -> Vec<T>,
    H: Fn(&[T], &[T], usize, usize, usize) -> Vec<T>,
    U: Fn(S) -> T,
    N: Fn(T) -> S,
>(
    x: HostTensor<S>,
    weight: HostTensor<S>,
    bias: Option<HostTensor<S>>,
    options: &ConvOptions<2>,
    zero: T,
    mac: &M,
    add_fn: &A,
    gemm_nt: &G,
    gemm_nn: &H,
    to_f32: &U,
    from_f32: &N,
) -> (r: HostTensor<S>)
    requires
        x.wf(),
        weight.wf(),
        x.shape@.len() == 4,
        weight.shape@.len() == 4,
        conv3d_entry_ok(shape_2d_as_3d(x.shape@), shape_2d_as_3d(weight.shape@), options_2d_as_3d(*options)),
        conv_bias_ok(conv_path(shape_2d_as_3d(x.shape@), shape_2d_as_3d(weight.shape@), options_2d_as_3d(*options), true), bias, weight.shape@[0] as int),
        conv_ops_ok(*mac, *add_fn, *gemm_nt, *gemm_nn),
        forall|a: S| call_requires(*to_f32, (a,)),
        forall|a: T| call_requires(*from_f32, (a,)),
    ensures
        r.shape@ == squeeze_shape_2d(conv3d_out_shape(shape_2d_as_3d(x.shape@), shape_2d_as_3d(weight.shape@), options_2d_as_3d(*options))),
        r.dtype == DType::BF16,
        r.wf(),
        conv3d_result_narrowed(*mac, *add_fn, *gemm_nt, *gemm_nn, *to_f32, *from_f32, zero, x.data@, shape_2d_as_3d(x.shape@), weight.data@, shape_2d_as_3d(weight.shape@), bias_data(bias), options_2d_as_3d(*options), r.data@),
{
    let wx = widen(&x, to_f32);
    let ww = widen(&weight, to_f32);
    let wb = match &bias {
        Option::Some(b) => Option::Some(widen(b, to_f32)),
        Option::None => Option::None,
    };
    proof {
        assert(bias_converted(*to_f32, bias_data(bias), bias_data(wb)));
    }
    let out = conv2d_f32(wx, ww, wb, options, zero, mac, add_fn, gemm_nt, gemm_nn);
    let data = map_elements(&out.data, from_f32);
    let r = HostTensor::new(data, copy_shape(&out.shape), DType::BF16);
    proof {
        assert(conv3d_result(*mac, *add_fn, *gemm_nt, *gemm_nn, zero, true, wx.data@, shape_2d_as_3d(x.shape@), ww.data@, shape_2d_as_3d(weight.shape@), bias_data(wb), options_2d_as_3d(*options), out.data@));
    }
    r
}

/// 1D convolution of f32-tagged tensors.
pub fn conv1d_f32<
    T: Copy,
    M: Fn(T, T, T) -> T,
    A: Fn(T, T) -> T,
    G: Fn(&[T], &[T], usize, usize, usize) -> Vec<T>,
    H: Fn(&[T], &[T], usize, usize, usize) -> Vec<T>,
>(
    x: HostTensor<T>,
    weight: HostTensor<T>,
    bias: Option<HostTensor<T>>,
    options: &ConvOptions<1>,
    zero: T,
    mac: &M,
    add_fn: &A,
    gemm_nt: &G,
    gemm_nn: &H,
) -> (r: HostTensor<T>)
    requires
        x.wf(),
        weight.wf(),
        x.shape@.len() == 3,
        weight.shape@.len() == 3,
        conv3d_entry_ok(shape_1d_as_3d(x.shape@), shape_1d_as_3d(weight.shape@), options_1d_as_3d(*options)),
        conv_bias_ok(conv_path(shape_1d_as_3d(x.shape@), shape_1d_as_3d(weight.shape@), options_1d_as_3d(*options), true), bias, weight.shape@[0] as int),
        conv_ops_ok(*mac, *add_fn, *gemm_nt, *gemm_nn),
    ensures
        r.shape@ == squeeze_shape_1d(conv3d_out_shape(shape_1d_as_3d(x.shape@), shape_1d_as_3d(weight.shape@), options_1d_as_3d(*options))),
        r.dtype == DType::F32,
        r.wf(),
        conv3d_result(*mac, *add_fn, *gemm_nt, *gemm_nn, zero, true, x.data@, shape_1d_as_3d(x.shape@), weight.data@, shape_1d_as_3d(weight.shape@), bias_data(bias), options_1d_as_3d(*options), r.data@),
{
    conv1d_run(x, weight, bias, options, DType::F32, true, zero, mac, add_fn, gemm_nt, gemm_nn)
}

/// 1D convolution of f64-tagged tensors.
pub fn conv1d_f64<
    T: Copy,
    M: Fn(T, T, T) -> T,
    A: Fn(T, T) -> T,
    G: Fn(&[T], &[T], usize, usize, usize) -> Vec<T>,
    H: Fn(&[T], &[T], usize, usize, usize) -> Vec<T>,
>(
    x: HostTensor<T>,
    weight: HostTensor<T>,
    bias: Option<HostTensor<T>>,
    options: &ConvOptions<1>,
    zero: T,
    mac: &M,
    add_fn: &A,
    gemm_nt: &G,
    gemm_nn: &H,
) -> (r: HostTensor<T>)
    requires
        x.wf(),
        weight.wf(),
        x.shape@.len() == 3,
        weight.shape@.len() == 3,
        conv3d_entry_ok(shape_1d_as_3d(x.shape@), shape_1d_as_3d(weight.shape@), options_1d_as_3d(*options)),
        conv_bias_ok(conv_path(shape_1d_as_3d(x.shape@), shape_1d_as_3d(weight.shape@), options_1d_as_3d(*options), true), bias, weight.shape@[0] as int),
        conv_ops_ok(*mac, *add_fn, *gemm_nt, *gemm_nn),
    ensures
        r.shape@ == squeeze_shape_1d(conv3d_out_shape(shape_1d_as_3d(x.shape@), shape_1d_as_3d(weight.shape@), options_1d_as_3d(*options))),
        r.dtype == DType::F64,
        r.wf(),
        conv3d_result(*mac, *add_fn, *gemm_nt, *gemm_nn, zero, true, x.data@, shape_1d_as_3d(x.shape@), weight.data@, shape_1d_as_3d(weight.shape@), bias_data(bias), options_1d_as_3d(*options), r.data@),
{
    conv1d_run(x, weight, bias, options, DType::F64, true, zero, mac, add_fn, gemm_nt, gemm_nn)
}

/// 1D convolution of f16-tagged tensors (no direct path).
pub fn conv1d_f16<
    T: Copy,
    M: Fn(T, T, T) -> T,
    A: Fn(T, T) -> T,
    G: Fn(&[T], &[T], usize, usize, usize) -> Vec<T>,
    H: Fn(&[T], &[T], usize, usize, usize) -> Vec<T>,
>(
    x: HostTensor<T>,
    weight: HostTensor<T>,
    bias: Option<HostTensor<T>>,
    options: &ConvOptions<1>,
    zero: T,
    mac: &M,
    add_fn: &A,
    gemm_nt: &G,
    gemm_nn: &H,
) -> (r: HostTensor<T>)
    requires
        x.wf(),
        weight.wf(),
        x.shape@.len() == 3,
        weight.shape@.len() == 3,
        conv3d_entry_ok(shape_1d_as_3d(x.shape@), shape_1d_as_3d(weight.shape@), options_1d_as_3d(*options)),
        conv_bias_ok(conv_path(shape_1d_as_3d(x.shape@), shape_1d_as_3d(weight.shape@), options_1d_as_3d(*options), false), bias, weight.shape@[0] as int),
        conv_ops_ok(*mac, *add_fn, *gemm_nt, *gemm_nn),
    ensures
        r.shape@ == squeeze_shape_1d(conv3d_out_shape(shape_1d_as_3d(x.shape@), shape_1d_as_3d(weight.shape@), options_1d_as_3d(*options))),
        r.dtype == DType::F16,
        r.wf(),
        conv3d_result(*mac, *add_fn, *gemm_nt, *gemm_nn, zero, false, x.data@, shape_1d_as_3d(x.shape@), weight.data@, shape_1d_as_3d(weight.shape@), bias_data(bias), options_1d_as_3d(*options), r.data@),
{
    conv1d_run(x, weight, bias, options, DType::F16, false, zero, mac, add_fn, gemm_nt, gemm_nn)
}

/// 1D convolution of bf16-tagged tensors, computed as f32-tagged ones.
pub fn conv1d_bf16<
    S: Copy,
    T: Copy,
    M: Fn(T, T, T) -> T,
    A: Fn(T, T) -> T,
    G: Fn(&[T], &[T], usize, usize, usize) -> Vec<T>,
    H: Fn(&[T], &[T], usize, usize, usize) -> Vec<T>,
    U: Fn(S) -> T,
    N: Fn(T) -> S,
>(
    x: HostTensor<S>,
    weight: HostTensor<S>,
    bias: Option<HostTensor<S>>,
    options: &ConvOptions<1>,
    zero: T,
    mac: &M,
    add_fn: &A,
    gemm_nt: &G,
    gemm_nn: &H,
    to_f32: &U,
    from_f32: &N,
) -> (r: HostTensor<S>)
    requires
        x.wf(),
        weight.wf(),
        x.shape@.len() == 3,
        weight.shape@.len() == 3,
        conv3d_entry_ok(shape_1d_as_3d(x.shape@), shape_1d_as_3d(weight.shape@), options_1d_as_3d(*options)),
        conv_bias_ok(conv_path(shape_1d_as_3d(x.shape@), shape_1d_as_3d(weight.shape@), options_1d_as_3d(*options), true), bias, weight.shape@[0] as int),
        conv_ops_ok(*mac, *add_fn, *gemm_nt, *gemm_nn),
        forall|a: S| call_requires(*to_f32, (a,)),
        forall|a: T| call_requires(*from_f32, (a,)),
    ensures
        r.shape@ == squeeze_shape_1d(conv3d_out_shape(shape_1d_as_3d(x.shape@), shape_1d_as_3d(weight.shape@), options_1d_as_3d(*options))),
        r.dtype == DType::BF16,
        r.wf(),
        conv3d_result_narrowed(*mac, *add_fn, *gemm_nt, *gemm_nn, *to_f32, *from_f32, zero, x.data@, shape_1d_as_3d(x.shape@), weight.data@, shape_1d_as_3d(weight.shape@), bias_data(bias), options_1d_as_3d(*options), r.data@),
{
    let wx = widen(&x, to_f32);
    let ww = widen(&weight, to_f32);
    let wb = match &bias {
        Option::Some(b) => Option::Some(widen(b, to_f32)),
        Option::None => Option::None,
    };
    proof {
        assert(bias_converted(*to_f32, bias_data(bias), bias_data(wb)));
    }
    let out = conv1d_f32(wx, ww, wb, options, zero, mac, add_fn, gemm_nt, gemm_nn);
    let data = map_elements(&out.data, from_f32);
    let r = HostTensor::new(data, copy_shape(&out.shape), DType::BF16);
    proof {
        assert(conv3d_result(*mac, *add_fn, *gemm_nt, *gemm_nn, zero, true, wx.data@, shape_1d_as_3d(x.shape@), ww.data@, shape_1d_as_3d(weight.shape@), bias_data(wb), options_1d_as_3d(*options), out.data@));
    }
    r
}

} // verus!
