//! Convolution over the spatial axes of `[batch, channels, d, h, w]` tensors.
//!
//! The 1D and 2D entry points insert unit axes and run the 3D kernels. A
//! convolution is routed to the cheapest kernel that applies to its shape:
//! pointwise (1x1), depthwise, small-channel, direct, or the general tiled
//! im2col path.
use vstd::prelude::*;
use crate::pool::{ceil_div, effective_kernel};
use crate::arith::{lemma_mul_nonneg, lemma_offset2};
use crate::tensor::{HostTensor, shape_numel, lemma_numel_5};
use plane::{PlaneGeom, plane_tap, out_steps, plane_geom, rows};
use vstd::arithmetic::div_mod::{lemma_fundamental_div_mod, lemma_mod_bound};

pub mod plane;
pub mod depthwise;
pub mod small_channel;
pub mod im2col;
pub mod pointwise;
pub mod direct;
pub mod forward;
pub mod deform;
pub mod deform_backward;

verus! {

/// Stride, padding and dilation of each of the `N` spatial axes, and the
/// number of channel groups.
#[derive(Clone, Copy, Debug)]
pub struct ConvOptions<const N: usize> {
    pub stride: [usize; N],
    pub padding: [usize; N],
    pub dilation: [usize; N],
    pub groups: usize,
}

impl<const N: usize> ConvOptions<N> {
    pub fn new(stride: [usize; N], padding: [usize; N], dilation: [usize; N], groups: usize) -> (r: Self)
        ensures
            r.stride == stride,
            r.padding == padding,
            r.dilation == dilation,
            r.groups == groups,
    {
        ConvOptions { stride, padding, dilation, groups }
    }
}

/// Number of output positions along one axis: windows of
/// `effective_kernel(kernel, dilation)` positions placed every `stride`
/// positions over the input padded by `padding` on both sides.
pub open spec fn conv_out_len(kernel: int, stride: int, padding: int, dilation: int, size: int) -> int {
    (size + 2 * padding - effective_kernel(kernel, dilation)) / stride + 1
}

/// The arguments on which the output length along one axis is defined: a
/// non-empty kernel, a positive stride, and a padded input no shorter than
/// the dilated kernel.
pub open spec fn conv_axis_ok(kernel: int, stride: int, padding: int, dilation: int, size: int) -> bool {
    &&& kernel >= 1
    &&& stride >= 1
    &&& size + 2 * padding <= usize::MAX
    &&& effective_kernel(kernel, dilation) <= size + 2 * padding
}

/// Output length of a convolution along one axis.
pub fn calculate_conv_output_size(kernel_size: usize, stride: usize, padding: usize, dilation: usize, size: usize) -> (r: usize)
    requires
        conv_axis_ok(kernel_size as int, stride as int, padding as int, dilation as int, size as int),
    ensures
        r == conv_out_len(kernel_size as int, stride as int, padding as int, dilation as int, size as int),
        r >= 1,
{
    proof {
        lemma_mul_nonneg(dilation as int, kernel_size - 1);
    }
    let n = size + 2 * padding - dilation * (kernel_size - 1) - 1;
    assert(n / stride <= n) by (nonlinear_arith)
        requires stride >= 1, n >= 0;
    n / stride + 1
}

/// Kernel tap `k` of output position `o` reads input position
/// `o * stride + k * dilation - pad`; whether that lies inside `[0, in_size)`.
pub open spec fn tap_inside(o: int, k: int, dilation: int, pad: int, stride: int, in_size: int) -> bool {
    0 <= o * stride + k * dilation - pad < in_size
}

/// The half-open range of output positions whose tap `k` lies inside the
/// input, clipped to `[0, out_size)`, as computed by `valid_out_range`.
pub open spec fn out_range(k: int, dilation: int, pad: int, stride: int, in_size: int, out_size: int) -> (int, int) {
    let offset = k * dilation;
    let start = if offset >= pad { 0 } else { ceil_div(pad - offset, stride) };
    let threshold = in_size + pad;
    let end0 = if offset >= threshold { 0 } else { ceil_div(threshold - offset, stride) };
    let end = if end0 <= out_size { end0 } else { out_size };
    let start2 = if start <= end { start } else { end };
    (start2, end)
}

/// The arguments on which `valid_out_range` is defined.
pub open spec fn out_range_ok(k: int, dilation: int, pad: int, stride: int, in_size: int) -> bool {
    &&& stride >= 1
    &&& k * dilation <= usize::MAX
    &&& in_size + pad <= usize::MAX
}

/// Compute the half-open range `[out_start, out_end)` of output positions `o`
/// for which the corresponding input index `o * stride + k * dilation - pad`
/// lies inside `[0, in_size)`.
pub fn valid_out_range(k: usize, dilation: usize, pad: usize, stride: usize, in_size: usize, out_size: usize) -> (r: (usize, usize))
    requires
        out_range_ok(k as int, dilation as int, pad as int, stride as int, in_size as int),
    ensures
        (r.0 as int, r.1 as int) == out_range(k as int, dilation as int, pad as int, stride as int, in_size as int, out_size as int),
        r.0 <= r.1 <= out_size,
{
    let offset = k * dilation;
    let out_start = if offset >= pad {
        0
    } else {
        div_ceil(pad - offset, stride)
    };
    let threshold = in_size + pad;
    let out_end = if offset >= threshold {
        0
    } else {
        div_ceil(threshold - offset, stride)
    };
    let out_end = if out_end <= out_size { out_end } else { out_size };
    let out_start = if out_start <= out_end { out_start } else { out_end };
    (out_start, out_end)
}

/// Ceiling of `n / d`.
pub fn div_ceil(n: usize, d: usize) -> (r: usize)
    requires
        d >= 1,
    ensures
        r == ceil_div(n as int, d as int),
{
    assert(n / d <= n) by (nonlinear_arith)
        requires d >= 1;
    let q = n / d;
    if n % d == 0 {
        q
    } else {
        proof {
            lemma_fundamental_div_mod(n as int, d as int);
            assert(d * q + n % d == n);
            assert(q < n) by (nonlinear_arith)
                requires d * q + n % d == n, n % d > 0, d >= 1, q >= 0;
        }
        q + 1
    }
}

/// `valid_out_range` is exact: an output position lies in the returned range
/// if and only if it is a valid output position whose tap `k` reads inside
/// the input.
pub proof fn lemma_valid_out_range_exact(k: int, dilation: int, pad: int, stride: int, in_size: int, out_size: int, o: int)
    requires
        k >= 0,
        dilation >= 0,
        pad >= 0,
        stride >= 1,
        in_size >= 0,
        out_size >= 0,
        0 <= o,
    ensures
        ({
            let r = out_range(k, dilation, pad, stride, in_size, out_size);
            r.0 <= o < r.1 <==> (o < out_size && tap_inside(o, k, dilation, pad, stride, in_size))
        }),
{
    let offset = k * dilation;
    lemma_mul_nonneg(k, dilation);
    lemma_ceil_div_le(pad - offset, stride, o);
    lemma_ceil_div_le(in_size + pad - offset, stride, o);
}

/// For `n > 0`: `ceil(n / d) <= o` exactly when `n <= o * d`.
proof fn lemma_ceil_div_le(n: int, d: int, o: int)
    requires
        d >= 1,
        o >= 0,
    ensures
        n > 0 ==> (ceil_div(n, d) <= o <==> n <= o * d),
{
    if n > 0 {
        lemma_fundamental_div_mod(n, d);
        lemma_mod_bound(n, d);
        let q = n / d;
        let r = n % d;
        assert((if r == 0 { q } else { q + 1 }) <= o <==> n <= o * d) by (nonlinear_arith)
            requires
                d * q + r == n,
                0 <= r < d,
                d >= 1,
                o >= 0,
        {
            if r == 0 {
                if q > o {
                    assert(d * q >= d * (o + 1));
                }
                if q <= o {
                    assert(d * q <= d * o);
                }
            } else {
                if q + 1 <= o {
                    assert(d * (q + 1) <= d * o);
                }
                if q >= o {
                    assert(d * q >= d * o);
                }
            }
        }
    }
}

/// Whether the kernel is 1x1x1 with unit stride and no padding.
pub open spec fn is_pointwise(kernel_d: int, kernel_h: int, kernel_w: int, options: ConvOptions<3>) -> bool {
    &&& kernel_d == 1 && kernel_h == 1 && kernel_w == 1
    &&& options.stride[0] == 1 && options.stride[1] == 1 && options.stride[2] == 1
    &&& options.padding[0] == 0 && options.padding[1] == 0 && options.padding[2] == 0
}

/// Check if this is a 1x1 convolution that can use the fast path.
pub fn is_1x1_conv(kernel_d: usize, kernel_h: usize, kernel_w: usize, options: &ConvOptions<3>) -> (r: bool)
    ensures
        r == is_pointwise(kernel_d as int, kernel_h as int, kernel_w as int, *options),
{
    kernel_d == 1 && kernel_h == 1 && kernel_w == 1 && options.stride[0] == 1 && options.stride[1] == 1
        && options.stride[2] == 1 && options.padding[0] == 0 && options.padding[1] == 0 && options.padding[2] == 0
}

/// The depth axis is trivial: unit kernel and input depth, unit stride and
/// dilation, no padding.
pub open spec fn flat_depth(x_shape: Seq<usize>, w_shape: Seq<usize>, options: ConvOptions<3>) -> bool {
    &&& w_shape[2] == 1 && x_shape[2] == 1
    &&& options.stride[0] == 1 && options.padding[0] == 0 && options.dilation[0] == 1
}

/// Canonical depthwise: one input and one output channel per group, over a
/// trivial depth axis.
pub open spec fn is_depthwise(x_shape: Seq<usize>, w_shape: Seq<usize>, options: ConvOptions<3>) -> bool {
    &&& w_shape[1] == 1 && options.groups == x_shape[1] && w_shape[0] == x_shape[1]
    &&& flat_depth(x_shape, w_shape, options)
}

/// Decide whether to use the depthwise fast path.
///
/// Triggers on canonical depthwise 1D or 2D convolutions (restricted to
/// `kd == 1 && in_d == 1` after the 3D expansion used by conv1d/conv2d).
pub fn should_use_depthwise_conv(x_shape: &[usize], w_shape: &[usize], options: &ConvOptions<3>) -> (r: bool)
    requires
        x_shape@.len() >= 2,
        w_shape@.len() >= 2,
        (w_shape@[1] == 1 && options.groups == x_shape@[1] && w_shape@[0] == x_shape@[1]) ==> (x_shape@.len() >= 3
            && w_shape@.len() >= 3),
    ensures
        r == is_depthwise(x_shape@, w_shape@, *options),
{
    let channels_in = x_shape[1];
    let channels_out = w_shape[0];
    let channels_per_group = w_shape[1];
    let groups = options.groups;
    if channels_per_group != 1 || groups != channels_in || channels_out != channels_in {
        return false;
    }
    if w_shape[2] != 1 || x_shape[2] != 1 {
        return false;
    }
    if options.stride[0] != 1 || options.padding[0] != 0 || options.dilation[0] != 1 {
        return false;
    }
    true
}

/// Threshold on `channels_in` for the small-channel fast path.
pub const SMALL_CHANNEL_IN_THRESHOLD: usize = 4;

/// Threshold on `channels_out` for the small-channel fast path.
pub const SMALL_CHANNEL_OUT_THRESHOLD: usize = 16;

/// An ungrouped convolution over a trivial depth axis with between one and
/// `SMALL_CHANNEL_IN_THRESHOLD` input and between one and
/// `SMALL_CHANNEL_OUT_THRESHOLD` output channels.
pub open spec fn is_small_channel(x_shape: Seq<usize>, w_shape: Seq<usize>, options: ConvOptions<3>) -> bool {
    &&& options.groups == 1
    &&& flat_depth(x_shape, w_shape, options)
    &&& 0 < x_shape[1] <= SMALL_CHANNEL_IN_THRESHOLD
    &&& 0 < w_shape[0] <= SMALL_CHANNEL_OUT_THRESHOLD
}

/// Decide whether to use the small-channel fast path.
pub fn should_use_small_channel_conv(x_shape: &[usize], w_shape: &[usize], options: &ConvOptions<3>) -> (r: bool)
    requires
        options.groups == 1 ==> (x_shape@.len() >= 3 && w_shape@.len() >= 3),
    ensures
        r == is_small_channel(x_shape@, w_shape@, *options),
{
    if options.groups != 1 {
        return false;
    }
    if w_shape[2] != 1 || x_shape[2] != 1 {
        return false;
    }
    if options.stride[0] != 1 || options.padding[0] != 0 || options.dilation[0] != 1 {
        return false;
    }
    let channels_in = x_shape[1];
    let channels_out = w_shape[0];
    channels_in > 0 && channels_in <= SMALL_CHANNEL_IN_THRESHOLD && channels_out > 0 && channels_out
        <= SMALL_CHANNEL_OUT_THRESHOLD
}

/// An ungrouped convolution without padding or dilation whose kernel and
/// input are one-dimensional (unit depth and height).
pub open spec fn is_direct_shape(x_shape: Seq<usize>, w_shape: Seq<usize>, options: ConvOptions<3>) -> bool {
    &&& options.groups == 1
    &&& options.padding[0] == 0 && options.padding[1] == 0 && options.padding[2] == 0
    &&& options.dilation[0] == 1 && options.dilation[1] == 1 && options.dilation[2] == 1
    &&& w_shape[2] == 1 && w_shape[3] == 1
    &&& x_shape[2] == 1 && x_shape[3] == 1
}

/// A one-dimensional convolution with at least 32 input channels, a kernel
/// of at most 8 taps and at most 800 output positions.
pub open spec fn is_direct(x_shape: Seq<usize>, w_shape: Seq<usize>, options: ConvOptions<3>) -> bool {
    &&& is_direct_shape(x_shape, w_shape, options)
    &&& x_shape[1] >= 32
    &&& w_shape[4] <= 8
    &&& conv_out_len(w_shape[4] as int, options.stride[2] as int, 0, 1, x_shape[4] as int) <= 800
}

/// Decide whether to use the direct conv path instead of tiled im2col + GEMM.
pub fn should_use_direct_conv(x_shape: &[usize], w_shape: &[usize], options: &ConvOptions<3>) -> (r: bool)
    requires
        (options.groups == 1 && options.padding[0] == 0 && options.padding[1] == 0 && options.padding[2] == 0
            && options.dilation[0] == 1 && options.dilation[1] == 1 && options.dilation[2] == 1) ==> w_shape@.len()
            >= 5,
        (options.groups == 1 && options.padding[0] == 0 && options.padding[1] == 0 && options.padding[2] == 0
            && options.dilation[0] == 1 && options.dilation[1] == 1 && options.dilation[2] == 1 && w_shape@[2] == 1
            && w_shape@[3] == 1) ==> x_shape@.len() >= 5,
        is_direct_shape(x_shape@, w_shape@, *options) ==> conv_axis_ok(
            w_shape@[4] as int,
            options.stride[2] as int,
            0,
            1,
            x_shape@[4] as int,
        ),
    ensures
        r == is_direct(x_shape@, w_shape@, *options),
{
    if options.groups != 1 || options.padding[0] != 0 || options.padding[1] != 0 || options.padding[2] != 0
        || options.dilation[0] != 1 || options.dilation[1] != 1 || options.dilation[2] != 1 {
        return false;
    }
    let kernel_d = w_shape[2];
    let kernel_h = w_shape[3];
    let kernel_w = w_shape[4];
    if kernel_d != 1 || kernel_h != 1 {
        return false;
    }
    if x_shape[2] != 1 || x_shape[3] != 1 {
        return false;
    }
    let channels_in = x_shape[1];
    let in_w = x_shape[4];
    let out_w = calculate_conv_output_size(kernel_w, options.stride[2], 0, 1, in_w);
    channels_in >= 32 && kernel_w <= 8 && out_w <= 800
}

/// The plane geometry of a convolution over `[batch, channels, 1, h, w]`
/// input with a `[c_out, c_in, 1, kh, kw]` kernel: the height and width axes
/// of the options.
pub open spec fn conv_geom(x_shape: Seq<usize>, w_shape: Seq<usize>, options: ConvOptions<3>) -> PlaneGeom {
    PlaneGeom {
        kernel_h: w_shape[3],
        kernel_w: w_shape[4],
        in_h: x_shape[3],
        in_w: x_shape[4],
        out_h: conv_out_len(w_shape[3] as int, options.stride[1] as int, options.padding[1] as int, options.dilation[1] as int, x_shape[3] as int) as usize,
        out_w: conv_out_len(w_shape[4] as int, options.stride[2] as int, options.padding[2] as int, options.dilation[2] as int, x_shape[4] as int) as usize,
        stride_h: options.stride[1],
        stride_w: options.stride[2],
        pad_h: options.padding[1],
        pad_w: options.padding[2],
        dilation_h: options.dilation[1],
        dilation_w: options.dilation[2],
    }
}

/// Plane `n` of a sequence of consecutive planes of `len` elements.
pub open spec fn plane_of<T>(s: Seq<T>, n: int, len: int) -> Seq<T> {
    s.subrange(n * len, n * len + len)
}

/// `r` is `v` with the bias of channel `c` added by `add`, or `v` itself when
/// there is no bias.
pub open spec fn biased<T, A: Fn(T, T) -> T>(add: A, bias: Option<Seq<T>>, c: int, v: T, r: T) -> bool {
    match bias {
        Option::None => r == v,
        Option::Some(b) => call_ensures(add, (v, b[c]), r),
    }
}

/// The elements of an optional bias tensor.
pub open spec fn bias_data<T>(bias: Option<HostTensor<T>>) -> Option<Seq<T>> {
    match bias {
        Option::None => Option::None,
        Option::Some(b) => Option::Some(b.data@),
    }
}

/// The height and width axes of a `[batch, channels, 1, h, w]` convolution
/// are well defined, and the output and the planes fit in `usize`.
pub open spec fn conv2d_in_3d_ok(x_shape: Seq<usize>, w_shape: Seq<usize>, options: ConvOptions<3>, c_out: int) -> bool {
    let g = conv_geom(x_shape, w_shape, options);
    &&& x_shape.len() == 5
    &&& w_shape.len() == 5
    &&& conv_axis_ok(w_shape[3] as int, options.stride[1] as int, options.padding[1] as int, options.dilation[1] as int, x_shape[3] as int)
    &&& conv_axis_ok(w_shape[4] as int, options.stride[2] as int, options.padding[2] as int, options.dilation[2] as int, x_shape[4] as int)
    &&& x_shape[0] * c_out * (g.out_h * g.out_w) <= usize::MAX
    &&& x_shape[3] * x_shape[4] <= usize::MAX
    &&& w_shape[3] * w_shape[4] <= usize::MAX
    &&& x_shape[1] * (x_shape[3] * x_shape[4]) <= usize::MAX
    &&& w_shape[1] * (w_shape[3] * w_shape[4]) <= usize::MAX
    &&& g.out_h * g.out_w <= usize::MAX
}

/// Per kernel tap along one axis, the range of output positions whose tap
/// reads inside the input.
pub fn out_ranges(kernel: usize, dilation: usize, pad: usize, stride: usize, in_size: usize, out_size: usize) -> (r: Vec<(usize, usize)>)
    requires
        stride >= 1,
        kernel == 0 || (kernel - 1) * dilation <= usize::MAX,
        in_size + pad <= usize::MAX,
    ensures
        r@.len() == kernel,
        forall|k: int|
            0 <= k < kernel ==> (#[trigger] r@[k].0 as int, r@[k].1 as int) == out_range(
                k,
                dilation as int,
                pad as int,
                stride as int,
                in_size as int,
                out_size as int,
            ),
{
    let mut r: Vec<(usize, usize)> = Vec::new();
    let mut k: usize = 0;
    while k < kernel
        invariant
            k <= kernel,
            stride >= 1,
            kernel == 0 || (kernel - 1) * dilation <= usize::MAX,
            in_size + pad <= usize::MAX,
            r@.len() == k,
            forall|j: int|
                0 <= j < k ==> (#[trigger] r@[j].0 as int, r@[j].1 as int) == out_range(
                    j,
                    dilation as int,
                    pad as int,
                    stride as int,
                    in_size as int,
                    out_size as int,
                ),
        decreases kernel - k,
    {
        assert(k * dilation <= (kernel - 1) * dilation) by (nonlinear_arith)
            requires k <= kernel - 1, dilation >= 0;
        let range = valid_out_range(k, dilation, pad, stride, in_size, out_size);
        r.push(range);
        k += 1;
    }
    r
}

/// Add `bias[c]` to every element of channel `c` of a
/// `[batch, channels, spatial]` buffer.
pub fn add_bias<T: Copy, A: Fn(T, T) -> T>(
    output: &mut Vec<T>,
    bias: &[T],
    batch_size: usize,
    channels: usize,
    spatial: usize,
    add_fn: &A,
)
    requires
        old(output)@.len() == batch_size * channels * spatial,
        bias@.len() >= channels,
        forall|a: T, b: T| call_requires(*add_fn, (a, b)),
    ensures
        final(output)@.len() == old(output)@.len(),
        forall|i: int|
            0 <= i < old(output)@.len() ==> call_ensures(
                *add_fn,
                (old(output)@[i], bias@[(i / spatial as int) % channels as int]),
                #[trigger] final(output)@[i],
            ),
{
    let ghost init = output@;
    let total = output.len();
    let mut i: usize = 0;
    let mut b: usize = 0;
    while b < batch_size
        invariant
            b <= batch_size,
            i == b * channels * spatial,
            init.len() == batch_size * channels * spatial,
            init.len() == total,
            output@.len() == init.len(),
            bias@.len() >= channels,
            forall|a: T, b: T| call_requires(*add_fn, (a, b)),
            forall|j: int| i <= j < init.len() ==> #[trigger] output@[j] == init[j],
            forall|j: int|
                0 <= j < i ==> call_ensures(*add_fn, (init[j], bias@[(j / spatial as int) % channels as int]), #[trigger] output@[j]),
        decreases batch_size - b,
    {
        let mut c: usize = 0;
        proof {
            lemma_mul_nonneg(b as int, channels as int);
            assert(b * channels * spatial + channels * spatial == (b + 1) * channels * spatial) by (nonlinear_arith);
            assert((b + 1) * channels * spatial <= batch_size * channels * spatial) by (nonlinear_arith)
                requires b + 1 <= batch_size, channels * spatial >= 0;
        }
        while c < channels
            invariant
                b < batch_size,
                c <= channels,
                i == b * channels * spatial + c * spatial,
                (b + 1) * channels * spatial <= init.len(),
                b * channels * spatial + channels * spatial == (b + 1) * channels * spatial,
                init.len() == batch_size * channels * spatial,
                init.len() == total,
                output@.len() == init.len(),
                bias@.len() >= channels,
                forall|a: T, b: T| call_requires(*add_fn, (a, b)),
                forall|j: int| i <= j < init.len() ==> #[trigger] output@[j] == init[j],
                forall|j: int|
                    0 <= j < i ==> call_ensures(*add_fn, (init[j], bias@[(j / spatial as int) % channels as int]), #[trigger] output@[j]),
            decreases channels - c,
        {
            assert(c * spatial + spatial == (c + 1) * spatial) by (nonlinear_arith);
            assert((c + 1) * spatial <= channels * spatial) by (nonlinear_arith)
                requires c + 1 <= channels, spatial >= 0;
            let bv = bias[c];
            let mut s: usize = 0;
            while s < spatial
                invariant
                    b < batch_size,
                    c < channels,
                    s <= spatial,
                    i == b * channels * spatial + c * spatial + s,
                    b * channels * spatial + c * spatial + spatial <= init.len(),
                    bv == bias@[c as int],
                    init.len() == batch_size * channels * spatial,
                    init.len() == total,
                    output@.len() == init.len(),
                    forall|a: T, b: T| call_requires(*add_fn, (a, b)),
                    forall|j: int| i <= j < init.len() ==> #[trigger] output@[j] == init[j],
                    forall|j: int|
                        0 <= j < i ==> call_ensures(*add_fn, (init[j], bias@[(j / spatial as int) % channels as int]), #[trigger] output@[j]),
                decreases spatial - s,
            {
                proof {
                    let j = i as int;
                    assert(j == (b * channels + c) * spatial + s) by (nonlinear_arith)
                        requires j == b * channels * spatial + c * spatial + s;
                    crate::arith::lemma_div_mod_offset(b * channels + c, s as int, spatial as int);
                    crate::arith::lemma_div_mod_offset(b as int, c as int, channels as int);
                }
                let v = add_fn(output[i], bv);
                output.set(i, v);
                i += 1;
                s += 1;
            }
            c += 1;
        }
        b += 1;
    }
}

} // verus!
