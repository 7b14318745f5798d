//! Pooling over the spatial axes of `[batch, channels, d, h, w]` tensors.
//!
//! One three-dimensional implementation serves every rank: the 1D and 2D
//! entry points insert unit axes, pool, and drop them again. Element values
//! are combined only through the operations the caller passes in.
use vstd::prelude::*;
use crate::tensor::{DType, HostTensor};
use crate::arith::{lemma_div_lt, lemma_mul_nonneg, lemma_offset2};
use vstd::arithmetic::div_mod::{lemma_fundamental_div_mod, lemma_div_is_ordered_by_denominator, lemma_mod_bound};

pub mod max;
pub mod average;
pub mod adaptive;
pub mod backward;

verus! {

/// Ceiling of `n / d` for `d > 0`.
pub open spec fn ceil_div(n: int, d: int) -> int {
    n / d + if n % d == 0 { 0int } else { 1int }
}

/// Extent covered by a kernel of `kernel` taps spaced `dilation` apart.
pub open spec fn effective_kernel(kernel: int, dilation: int) -> int {
    dilation * (kernel - 1) + 1
}

/// Number of pooling windows along one axis.
///
/// The input is padded by `padding` on both sides; a window covers
/// `effective_kernel(kernel, dilation)` positions and windows start every
/// `stride` positions. In ceil mode a final partial window is counted.
pub open spec fn pool_out_len(
    input: int,
    kernel: int,
    padding: int,
    stride: int,
    dilation: int,
    ceil_mode: bool,
) -> int {
    let eff = effective_kernel(kernel, dilation);
    let padded = input + 2 * padding;
    if padded < eff {
        if ceil_mode { 1 } else { 0 }
    } else if ceil_mode {
        ceil_div(padded - eff, stride) + 1
    } else {
        (padded - eff) / stride + 1
    }
}

/// The arguments of one pooling axis on which `pool_output_size` is defined:
/// a positive kernel and stride, and padded extents that fit in `usize`.
pub open spec fn pool_axis_ok(input: int, kernel: int, padding: int, stride: int, dilation: int) -> bool {
    &&& kernel > 0
    &&& stride > 0
    &&& input + 2 * padding + stride <= usize::MAX
    &&& effective_kernel(kernel, dilation) <= usize::MAX
}

/// Calculate pooling output size for a single dimension.
pub fn pool_output_size(
    input: usize,
    kernel: usize,
    padding: usize,
    stride: usize,
    dilation: usize,
    ceil_mode: bool,
) -> (r: usize)
    requires
        kernel > 0,
        stride > 0,
        input + 2 * padding <= usize::MAX,
        effective_kernel(kernel as int, dilation as int) <= usize::MAX,
    ensures
        r == pool_out_len(input as int, kernel as int, padding as int, stride as int, dilation as int, ceil_mode),
{
    assert(dilation * (kernel - 1) <= dilation * (kernel - 1) + 1);
    let effective_kernel = dilation * (kernel - 1) + 1;
    let padded = input + 2 * padding;
    if padded < effective_kernel {
        return if ceil_mode { 1 } else { 0 };
    }
    let numerator = padded - effective_kernel;
    assert(numerator / stride <= numerator) by (nonlinear_arith)
        requires stride > 0, numerator >= 0;
    if ceil_mode {
        let extra: usize = if numerator % stride != 0 { 1 } else { 0 };
        proof {
            if stride >= 2 {
                lemma_div_is_ordered_by_denominator(numerator as int, 2, stride as int);
            }
        }
        assert(numerator / stride + extra + 1 <= usize::MAX) by (nonlinear_arith)
            requires
                stride > 0,
                numerator < usize::MAX,
                extra <= 1,
                stride == 1 ==> extra == 0,
                stride == 1 ==> numerator / stride == numerator,
                stride >= 2 ==> numerator / stride <= numerator / 2,
        {
        }
        numerator / stride + extra + 1
    } else {
        numerator / stride + 1
    }
}

/// In floor mode every counted window lies inside the padded input, and one
/// more window would not.
pub proof fn lemma_pool_out_len_floor_windows(
    input: int,
    kernel: int,
    padding: int,
    stride: int,
    dilation: int,
)
    requires
        input >= 0,
        padding >= 0,
        kernel > 0,
        stride > 0,
        dilation >= 0,
        input + 2 * padding >= effective_kernel(kernel, dilation),
    ensures
        ({
            let out = pool_out_len(input, kernel, padding, stride, dilation, false);
            let eff = effective_kernel(kernel, dilation);
            &&& out >= 1
            &&& (out - 1) * stride + eff <= input + 2 * padding
            &&& input + 2 * padding < out * stride + eff
        }),
{
    let eff = effective_kernel(kernel, dilation);
    let n = input + 2 * padding - eff;
    let q = n / stride;
    lemma_fundamental_div_mod(n, stride);
    lemma_mod_bound(n, stride);
    assert(stride * q == q * stride) by (nonlinear_arith);
    assert((q + 1) * stride == q * stride + stride) by (nonlinear_arith);
}

/// Ceil mode counts at most one window more than floor mode, and exactly one
/// more when the last window would start past a full stride.
pub proof fn lemma_pool_out_len_ceil_vs_floor(
    input: int,
    kernel: int,
    padding: int,
    stride: int,
    dilation: int,
)
    requires
        input >= 0,
        padding >= 0,
        kernel > 0,
        stride > 0,
        dilation >= 0,
        input + 2 * padding >= effective_kernel(kernel, dilation),
    ensures
        ({
            let fl = pool_out_len(input, kernel, padding, stride, dilation, false);
            let ce = pool_out_len(input, kernel, padding, stride, dilation, true);
            let n = input + 2 * padding - effective_kernel(kernel, dilation);
            &&& fl <= ce <= fl + 1
            &&& (ce == fl <==> n % stride == 0)
        }),
{
}

/// Input coordinate that kernel tap `k` of output coordinate `o` reads.
pub open spec fn pool_tap(o: int, k: int, stride: int, dilation: int, pad: int) -> int {
    o * stride + k * dilation - pad
}

/// Coordinates of flat index `o` of a row-major `[n, d, h, w]` block:
/// `(n, d, h, w)`.
pub open spec fn unflatten4(o: int, d: int, h: int, w: int) -> (int, int, int, int) {
    (o / w / h / d, (o / w / h) % d, (o / w) % h, o % w)
}

/// Coordinates of flat index `q` of a row-major `[d, h, w]` block.
pub open spec fn unflatten3(q: int, h: int, w: int) -> (int, int, int) {
    (q / w / h, (q / w) % h, q % w)
}

/// Row-major offset of `(a, b, c)` in a `[_, h, w]` block.
pub open spec fn offset3(a: int, b: int, c: int, h: int, w: int) -> int {
    (a * h + b) * w + c
}

/// The input coordinate read by tap `k` of output coordinate `o` along one
/// axis, or `None` when it falls into the padding or past the input.
pub fn tap_index(o: usize, k: usize, stride: usize, dilation: usize, pad: usize, size: usize) -> (r: Option<usize>)
    requires
        pad + size <= usize::MAX,
    ensures
        match r {
            Option::Some(i) => i == pool_tap(o as int, k as int, stride as int, dilation as int, pad as int) && i < size,
            Option::None => !(0 <= pool_tap(o as int, k as int, stride as int, dilation as int, pad as int) < size),
        },
{
    proof {
        lemma_mul_nonneg(o as int, stride as int);
        lemma_mul_nonneg(k as int, dilation as int);
    }
    match o.checked_mul(stride) {
        Option::None => Option::None,
        Option::Some(a) => match k.checked_mul(dilation) {
            Option::None => Option::None,
            Option::Some(b) => match a.checked_add(b) {
                Option::None => Option::None,
                Option::Some(t) => {
                    if t >= pad && t - pad < size {
                        Option::Some(t - pad)
                    } else {
                        Option::None
                    }
                },
            },
        },
    }
}

/// Splits a flat index of a row-major `[n, d, h, w]` block into coordinates.
pub fn unflatten4_exec(o: usize, n: Ghost<int>, d: usize, h: usize, w: usize) -> (r: (usize, usize, usize, usize))
    requires
        d > 0,
        h > 0,
        w > 0,
        0 <= o < n@ * d * h * w,
    ensures
        (r.0 as int, r.1 as int, r.2 as int, r.3 as int) == unflatten4(o as int, d as int, h as int, w as int),
        r.0 < n@,
        r.1 < d,
        r.2 < h,
        r.3 < w,
{
    proof {
        lemma_div_lt(o as int, n@ * d * h, w as int);
        lemma_div_lt(o as int / w as int, n@ * d, h as int);
        lemma_div_lt(o as int / w as int / h as int, n@, d as int);
    }
    let t = o / w;
    let t2 = t / h;
    (t2 / d, t2 % d, t % h, o % w)
}

/// Splits a flat index of a row-major `[d, h, w]` block into coordinates.
pub fn unflatten3_exec(q: usize, d: usize, h: usize, w: usize) -> (r: (usize, usize, usize))
    requires
        h > 0,
        w > 0,
        0 <= q < d * h * w,
    ensures
        (r.0 as int, r.1 as int, r.2 as int) == unflatten3(q as int, h as int, w as int),
        r.0 < d,
        r.1 < h,
        r.2 < w,
{
    proof {
        lemma_div_lt(q as int, d * h, w as int);
        lemma_div_lt(q as int / w as int, d as int, h as int);
    }
    let t = q / w;
    (t / h, t % h, q % w)
}

/// Row-major offset of `(a, b, c)` in a `[d, h, w]` block, with its bound.
pub fn offset3_exec(a: usize, b: usize, c: usize, d: Ghost<int>, h: usize, w: usize) -> (r: usize)
    requires
        a < d@,
        b < h,
        c < w,
        d@ * h * w <= usize::MAX,
    ensures
        r == offset3(a as int, b as int, c as int, h as int, w as int),
        r < d@ * h * w,
{
    proof {
        lemma_offset2(a as int, b as int, d@, h as int);
        lemma_offset2(a * h + b, c as int, d@ * h, w as int);
        assert(d@ * h <= d@ * h * w) by (nonlinear_arith)
            requires w >= 1, d@ * h >= 0;
        lemma_mul_nonneg(a as int, h as int);
    }
    (a * h + b) * w + c
}

/// `b` holds, element by element, a value `f` may return for the element of `a`.
pub open spec fn converted<S, T, F: Fn(S) -> T>(f: F, a: Seq<S>, b: Seq<T>) -> bool {
    &&& a.len() == b.len()
    &&& forall|i: int| 0 <= i < a.len() ==> call_ensures(f, (a[i],), #[trigger] b[i])
}

/// A copy of a shape.
pub fn copy_shape(shape: &Vec<usize>) -> (r: Vec<usize>)
    ensures
        r@ == shape@,
{
    let mut r: Vec<usize> = Vec::new();
    let mut i: usize = 0;
    while i < shape.len()
        invariant
            i <= shape.len(),
            r@ == shape@.take(i as int),
        decreases shape.len() - i,
    {
        r.push(shape[i]);
        assert(shape@.take(i as int).push(shape[i as int]) =~= shape@.take(i + 1));
        i += 1;
    }
    assert(shape@.take(shape.len() as int) =~= shape@);
    r
}

/// Applies `f` to every element.
pub fn map_elements<S: Copy, T, F: Fn(S) -> T>(data: &Vec<S>, f: &F) -> (r: Vec<T>)
    requires
        forall|a: S| call_requires(*f, (a,)),
    ensures
        converted(*f, data@, r@),
{
    let mut r: Vec<T> = Vec::new();
    let mut i: usize = 0;
    while i < data.len()
        invariant
            i <= data.len(),
            r.len() == i,
            forall|a: S| call_requires(*f, (a,)),
            forall|j: int| 0 <= j < i ==> call_ensures(*f, (data@[j],), #[trigger] r@[j]),
        decreases data.len() - i,
    {
        let v = f(data[i]);
        r.push(v);
        i += 1;
    }
    r
}

/// Widens a bf16-tagged tensor to an f32-tagged one with `to_f32`.
pub fn convert_bf16_to_f32<S: Copy, T, F: Fn(S) -> T>(tensor: &HostTensor<S>, to_f32: &F) -> (r: HostTensor<T>)
    requires
        forall|a: S| call_requires(*to_f32, (a,)),
    ensures
        r.shape@ == tensor.shape@,
        r.dtype == DType::F32,
        converted(*to_f32, tensor.data@, r.data@),
{
    let data = map_elements(&tensor.data, to_f32);
    HostTensor::new(data, copy_shape(&tensor.shape), DType::F32)
}

/// Narrows an f32-tagged tensor to a bf16-tagged one with `from_f32`.
pub fn convert_f32_to_bf16<S: Copy, T, F: Fn(S) -> T>(tensor: &HostTensor<S>, from_f32: &F) -> (r: HostTensor<T>)
    requires
        forall|a: S| call_requires(*from_f32, (a,)),
    ensures
        r.shape@ == tensor.shape@,
        r.dtype == DType::BF16,
        converted(*from_f32, tensor.data@, r.data@),
{
    let data = map_elements(&tensor.data, from_f32);
    HostTensor::new(data, copy_shape(&tensor.shape), DType::BF16)
}

/// The 3D shape `[N, C, 1, H, W]` a 2D `[N, C, H, W]` shape is pooled as.
pub open spec fn shape_2d_as_3d(s: Seq<usize>) -> Seq<usize> {
    seq![s[0], s[1], 1usize, s[2], s[3]]
}

/// The 3D shape `[N, C, 1, 1, L]` a 1D `[N, C, L]` shape is pooled as.
pub open spec fn shape_1d_as_3d(s: Seq<usize>) -> Seq<usize> {
    seq![s[0], s[1], 1usize, 1usize, s[2]]
}

/// Per-axis arguments of a 2D pooling, with `fill` for the unit depth axis.
pub open spec fn lift2(a: [usize; 2], fill: usize) -> [usize; 3] {
    [fill, a[0], a[1]]
}

/// Per-axis arguments of a 1D pooling, with `fill` for both unit axes.
pub open spec fn lift1(a: usize, fill: usize) -> [usize; 3] {
    [fill, fill, a]
}

/// Expand 2D tensor [N, C, H, W] to 3D [N, C, 1, H, W].
pub fn expand_2d_to_3d<T>(x: HostTensor<T>) -> (r: HostTensor<T>)
    requires
        x.shape@.len() == 4,
    ensures
        r.shape@ == seq![x.shape[0], x.shape[1], 1usize, x.shape[2], x.shape[3]],
        r.data@ == x.data@,
        r.dtype == x.dtype,
{
    let shape = vec![x.shape[0], x.shape[1], 1, x.shape[2], x.shape[3]];
    x.reshape(shape)
}

/// Squeeze 3D tensor [N, C, 1, H, W] to 2D [N, C, H, W].
pub fn squeeze_3d_to_2d<T>(x: HostTensor<T>) -> (r: HostTensor<T>)
    requires
        x.shape@.len() == 5,
    ensures
        r.shape@ == seq![x.shape[0], x.shape[1], x.shape[3], x.shape[4]],
        r.data@ == x.data@,
        r.dtype == x.dtype,
{
    let shape = vec![x.shape[0], x.shape[1], x.shape[3], x.shape[4]];
    x.reshape(shape)
}

/// Expand 1D tensor [N, C, L] to 3D [N, C, 1, 1, L].
pub fn expand_1d_to_3d<T>(x: HostTensor<T>) -> (r: HostTensor<T>)
    requires
        x.shape@.len() == 3,
    ensures
        r.shape@ == seq![x.shape[0], x.shape[1], 1usize, 1usize, x.shape[2]],
        r.data@ == x.data@,
        r.dtype == x.dtype,
{
    let shape = vec![x.shape[0], x.shape[1], 1, 1, x.shape[2]];
    x.reshape(shape)
}

/// Squeeze 3D tensor [N, C, 1, 1, L] to 1D [N, C, L].
pub fn squeeze_3d_to_1d<T>(x: HostTensor<T>) -> (r: HostTensor<T>)
    requires
        x.shape@.len() == 5,
    ensures
        r.shape@ == seq![x.shape[0], x.shape[1], x.shape[4]],
        r.data@ == x.data@,
        r.dtype == x.dtype,
{
    let shape = vec![x.shape[0], x.shape[1], x.shape[4]];
    x.reshape(shape)
}

} // verus!
