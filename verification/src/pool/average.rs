//! Average pooling. Padding positions may or may not count towards the
//! divisor; taps that fall past the padded input (ceil-mode windows) never do.
use vstd::prelude::*;
use crate::tensor::{DType, HostTensor, shape_numel, lemma_numel_5};
use crate::fold::{add_step, add_trace, folds_to, lemma_add_trace_push, count_true, lemma_count_true_push, lemma_count_true_le};
use super::{
    pool_out_len, pool_tap, unflatten3, unflatten4, offset3, pool_output_size, shape_2d_as_3d, shape_1d_as_3d,
    lift2, lift1, converted, convert_bf16_to_f32, convert_f32_to_bf16, expand_2d_to_3d,
    squeeze_3d_to_2d, expand_1d_to_3d, squeeze_3d_to_1d, unflatten3_exec, unflatten4_exec,
    offset3_exec, tap_index,
};
use super::max::{
    pool3d_ok, pool3d_out_dims, pool3d_out_shape, spatial_dims, squeeze_shape_2d, squeeze_shape_1d,
    lemma_wf_2d_as_3d, lemma_wf_1d_as_3d, lemma_wf_squeeze_2d, lemma_wf_squeeze_1d,
};
use crate::arith::lemma_mul_nonneg;

verus! {

/// Whether tap `k` of output coordinate `o` lies inside the padded input
/// (taps past it only occur in ceil-mode windows).
pub open spec fn tap_in_padded(o: int, k: int, stride: int, pad: int, size: int) -> bool {
    pool_tap(o, k, stride, 1, pad) < size + pad
}

/// Whether tap `k` of output coordinate `o` lies inside the input.
pub open spec fn tap_in_input(o: int, k: int, stride: int, pad: int, size: int) -> bool {
    0 <= pool_tap(o, k, stride, 1, pad) < size
}

/// Flattened kernel tap `q` of output position `pos`: whether it lies inside
/// the padded input, and the plane offset it reads when it lies inside the input.
pub open spec fn avg_window_tap(
    in_dims: [usize; 3],
    kernel: [usize; 3],
    stride: [usize; 3],
    padding: [usize; 3],
    pos: (int, int, int),
    q: int,
) -> (bool, Option<int>) {
    let kp = unflatten3(q, kernel[1] as int, kernel[2] as int);
    let padded = tap_in_padded(pos.0, kp.0, stride[0] as int, padding[0] as int, in_dims[0] as int)
        && tap_in_padded(pos.1, kp.1, stride[1] as int, padding[1] as int, in_dims[1] as int)
        && tap_in_padded(pos.2, kp.2, stride[2] as int, padding[2] as int, in_dims[2] as int);
    let inside = tap_in_input(pos.0, kp.0, stride[0] as int, padding[0] as int, in_dims[0] as int)
        && tap_in_input(pos.1, kp.1, stride[1] as int, padding[1] as int, in_dims[1] as int)
        && tap_in_input(pos.2, kp.2, stride[2] as int, padding[2] as int, in_dims[2] as int);
    if inside {
        let id = pool_tap(pos.0, kp.0, stride[0] as int, 1, padding[0] as int);
        let ih = pool_tap(pos.1, kp.1, stride[1] as int, 1, padding[1] as int);
        let iw = pool_tap(pos.2, kp.2, stride[2] as int, 1, padding[2] as int);
        (padded, Option::Some(offset3(id, ih, iw, in_dims[1] as int, in_dims[2] as int)))
    } else {
        (padded, Option::None)
    }
}

/// The values an averaging window adds up, in kernel order.
pub open spec fn avg_window_steps<T>(
    x: Seq<T>,
    base: int,
    in_dims: [usize; 3],
    kernel: [usize; 3],
    stride: [usize; 3],
    padding: [usize; 3],
    pos: (int, int, int),
) -> Seq<Option<T>> {
    Seq::new(
        (kernel[0] * kernel[1] * kernel[2]) as nat,
        |q: int|
            match avg_window_tap(in_dims, kernel, stride, padding, pos, q).1 {
                Option::Some(l) => Option::Some(x[base + l]),
                Option::None => Option::None,
            },
    )
}

/// Which taps of the window lie inside the input.
pub open spec fn avg_window_inside(
    in_dims: [usize; 3],
    kernel: [usize; 3],
    stride: [usize; 3],
    padding: [usize; 3],
    pos: (int, int, int),
) -> Seq<bool> {
    Seq::new(
        (kernel[0] * kernel[1] * kernel[2]) as nat,
        |q: int| avg_window_tap(in_dims, kernel, stride, padding, pos, q).1 is Some,
    )
}

/// Which taps of the window lie inside the padded input.
pub open spec fn avg_window_padded(
    in_dims: [usize; 3],
    kernel: [usize; 3],
    stride: [usize; 3],
    padding: [usize; 3],
    pos: (int, int, int),
) -> Seq<bool> {
    Seq::new(
        (kernel[0] * kernel[1] * kernel[2]) as nat,
        |q: int| avg_window_tap(in_dims, kernel, stride, padding, pos, q).0,
    )
}

/// The divisor of a window: the taps inside the padded input when padding
/// counts, else the taps inside the input; at least one.
pub open spec fn avg_divisor(
    in_dims: [usize; 3],
    kernel: [usize; 3],
    stride: [usize; 3],
    padding: [usize; 3],
    pos: (int, int, int),
    count_include_pad: bool,
) -> int {
    let c = if count_include_pad {
        count_true(avg_window_padded(in_dims, kernel, stride, padding, pos))
    } else {
        count_true(avg_window_inside(in_dims, kernel, stride, padding, pos))
    };
    if c >= 1 { c as int } else { 1 }
}

/// Along one axis: whether the tap lies inside the padded input and, if it
/// lies inside the input, its coordinate there.
pub fn avg_tap_axis(o: usize, k: usize, stride: usize, pad: usize, size: usize) -> (r: (bool, Option<usize>))
    requires
        size + 2 * pad <= usize::MAX,
    ensures
        r.0 == tap_in_padded(o as int, k as int, stride as int, pad as int, size as int),
        match r.1 {
            Option::Some(i) => i == pool_tap(o as int, k as int, stride as int, 1, pad as int)
                && tap_in_input(o as int, k as int, stride as int, pad as int, size as int),
            Option::None => !tap_in_input(o as int, k as int, stride as int, pad as int, size as int),
        },
{
    proof {
        lemma_mul_nonneg(o as int, stride as int);
    }
    let inside = tap_index(o, k, stride, 1, pad, size);
    let padded = match o.checked_mul(stride) {
        Option::None => false,
        Option::Some(a) => match a.checked_add(k) {
            Option::None => false,
            Option::Some(t) => t < size + 2 * pad,
        },
    };
    (padded, inside)
}

/// Sums one averaging window and counts its taps inside the input and
/// inside the padded input.
fn avg_window<T: Copy, A: Fn(T, T) -> T>(
    x: &Vec<T>,
    base: usize,
    in_dims: [usize; 3],
    kernel: [usize; 3],
    stride: [usize; 3],
    padding: [usize; 3],
    pos: [usize; 3],
    zero: T,
    add_fn: &A,
) -> (r: (T, usize, usize))
    requires
        base + in_dims[0] * in_dims[1] * in_dims[2] <= x.len(),
        in_dims[0] * in_dims[1] * in_dims[2] <= usize::MAX,
        kernel[1] > 0,
        kernel[2] > 0,
        kernel[0] * kernel[1] * kernel[2] <= usize::MAX,
        in_dims[0] + 2 * padding[0] <= usize::MAX,
        in_dims[1] + 2 * padding[1] <= usize::MAX,
        in_dims[2] + 2 * padding[2] <= usize::MAX,
        forall|a: T, b: T| call_requires(*add_fn, (a, b)),
    ensures
        ({
            let p = (pos[0] as int, pos[1] as int, pos[2] as int);
            &&& folds_to(*add_fn, zero, avg_window_steps(x@, base as int, in_dims, kernel, stride, padding, p), r.0)
            &&& r.1 == count_true(avg_window_inside(in_dims, kernel, stride, padding, p))
            &&& r.2 == count_true(avg_window_padded(in_dims, kernel, stride, padding, p))
        }),
{
    let ghost p = (pos[0] as int, pos[1] as int, pos[2] as int);
    let ghost steps = avg_window_steps(x@, base as int, in_dims, kernel, stride, padding, p);
    let ghost inside = avg_window_inside(in_dims, kernel, stride, padding, p);
    let ghost padded = avg_window_padded(in_dims, kernel, stride, padding, p);
    assert(kernel[0] * kernel[1] <= kernel[0] * kernel[1] * kernel[2]) by (nonlinear_arith)
        requires kernel[2] >= 1, kernel[0] * kernel[1] >= 0;
    let kvol = kernel[0] * kernel[1] * kernel[2];
    let mut sum = zero;
    let mut count: usize = 0;
    let mut pad_count: usize = 0;
    let ghost mut trace: Seq<T> = seq![zero];
    let mut q: usize = 0;
    assert(steps.take(0) =~= Seq::<Option<T>>::empty());
    assert(inside.take(0) =~= Seq::<bool>::empty());
    assert(padded.take(0) =~= Seq::<bool>::empty());
    while q < kvol
        invariant
            kvol == kernel[0] * kernel[1] * kernel[2],
            q <= kvol,
            steps.len() == kvol,
            inside.len() == kvol,
            padded.len() == kvol,
            base + in_dims[0] * in_dims[1] * in_dims[2] <= x.len(),
            in_dims[0] * in_dims[1] * in_dims[2] <= usize::MAX,
            kernel[1] > 0,
            kernel[2] > 0,
            in_dims[0] + 2 * padding[0] <= usize::MAX,
            in_dims[1] + 2 * padding[1] <= usize::MAX,
            in_dims[2] + 2 * padding[2] <= usize::MAX,
            forall|a: T, b: T| call_requires(*add_fn, (a, b)),
            p == (pos[0] as int, pos[1] as int, pos[2] as int),
            steps == avg_window_steps(x@, base as int, in_dims, kernel, stride, padding, p),
            inside == avg_window_inside(in_dims, kernel, stride, padding, p),
            padded == avg_window_padded(in_dims, kernel, stride, padding, p),
            add_trace(*add_fn, zero, steps.take(q as int), trace),
            trace.last() == sum,
            count == count_true(inside.take(q as int)),
            pad_count == count_true(padded.take(q as int)),
        decreases kvol - q,
    {
        let (a, b, c) = unflatten3_exec(q, kernel[0], kernel[1], kernel[2]);
        let ghost before = sum;
        let (pd, id) = avg_tap_axis(pos[0], a, stride[0], padding[0], in_dims[0]);
        let (ph, ih) = avg_tap_axis(pos[1], b, stride[1], padding[1], in_dims[1]);
        let (pw, iw) = avg_tap_axis(pos[2], c, stride[2], padding[2], in_dims[2]);
        proof {
            lemma_count_true_le(inside.take(q as int));
            lemma_count_true_le(padded.take(q as int));
            lemma_count_true_push(inside.take(q as int), inside[q as int]);
            lemma_count_true_push(padded.take(q as int), padded[q as int]);
            assert(inside.take(q as int).push(inside[q as int]) =~= inside.take(q + 1));
            assert(padded.take(q as int).push(padded[q as int]) =~= padded.take(q + 1));
        }
        if pd && ph && pw {
            pad_count += 1;
        }
        match (id, ih, iw) {
            (Option::Some(id), Option::Some(ih), Option::Some(iw)) => {
                let local = offset3_exec(id, ih, iw, Ghost(in_dims[0] as int), in_dims[1], in_dims[2]);
                sum = add_fn(sum, x[base + local]);
                count += 1;
                assert(steps[q as int] == Option::Some(x@[base + local]));
            },
            _ => {
                assert(steps[q as int] == Option::<T>::None);
            },
        }
        proof {
            assert(add_step(*add_fn, before, steps[q as int], sum));
            lemma_add_trace_push(*add_fn, zero, steps.take(q as int), trace, steps[q as int], sum);
            assert(steps.take(q as int).push(steps[q as int]) =~= steps.take(q + 1));
            trace = trace.push(sum);
        }
        q += 1;
    }
    assert(steps.take(kvol as int) =~= steps);
    assert(inside.take(kvol as int) =~= inside);
    assert(padded.take(kvol as int) =~= padded);
    (sum, count, pad_count)
}

/// `v` is what averaging output element `i` can yield: the window's sum
/// divided (with `div_fn`) by the window's divisor.
pub open spec fn avg_pool_value<T, A: Fn(T, T) -> T, D: Fn(T, usize) -> T>(
    add_fn: A,
    div_fn: D,
    zero: T,
    x: Seq<T>,
    shape: Seq<usize>,
    kernel: [usize; 3],
    stride: [usize; 3],
    padding: [usize; 3],
    count_include_pad: bool,
    out: (int, int, int),
    i: int,
    v: T,
) -> bool {
    let pos = unflatten4(i, out.0, out.1, out.2);
    let base = pos.0 * (shape[2] * shape[3] * shape[4]);
    let wp = (pos.1, pos.2, pos.3);
    exists|sum: T| {
        &&& #[trigger] folds_to(add_fn, zero, avg_window_steps(x, base, spatial_dims(shape), kernel, stride, padding, wp), sum)
        &&& call_ensures(div_fn, (sum, avg_divisor(spatial_dims(shape), kernel, stride, padding, wp, count_include_pad) as usize), v)
    }
}

/// `out` is what average pooling of `x` (of shape `shape`) yields.
pub open spec fn avg_pool_result<T, A: Fn(T, T) -> T, D: Fn(T, usize) -> T>(
    add_fn: A,
    div_fn: D,
    zero: T,
    x: Seq<T>,
    shape: Seq<usize>,
    kernel: [usize; 3],
    stride: [usize; 3],
    padding: [usize; 3],
    count_include_pad: bool,
    ceil_mode: bool,
    out: Seq<T>,
) -> bool {
    let o = pool3d_out_dims(spatial_dims(shape), kernel, stride, padding, [1usize, 1, 1], ceil_mode);
    forall|i: int| 0 <= i < out.len() ==> #[trigger] avg_pool_value(add_fn, div_fn, zero, x, shape, kernel, stride, padding, count_include_pad, o, i, out[i])
}

/// The bf16 variant: what average pooling of the widened input yields, narrowed.
pub open spec fn avg_pool_result_narrowed<S, T, A: Fn(T, T) -> T, D: Fn(T, usize) -> T, U: Fn(S) -> T, N: Fn(T) -> S>(
    add_fn: A,
    div_fn: D,
    zero: T,
    to_f32: U,
    from_f32: N,
    x: Seq<S>,
    shape: Seq<usize>,
    kernel: [usize; 3],
    stride: [usize; 3],
    padding: [usize; 3],
    count_include_pad: bool,
    ceil_mode: bool,
    out: Seq<S>,
) -> bool {
    exists|wide: Seq<T>, wide_out: Seq<T>| {
        &&& converted(to_f32, x, wide)
        &&& #[trigger] avg_pool_result(add_fn, div_fn, zero, wide, shape, kernel, stride, padding, count_include_pad, ceil_mode, wide_out)
        &&& converted(from_f32, wide_out, out)
        &&& wide_out.len() == out.len()
    }
}

/// Generic 3D average pooling implementation.
///
/// Each output is the sum (with `add_fn`, from `zero`, in kernel order) of
/// the window's taps inside the input, divided with `div_fn` by the number of
/// taps inside the padded input when `count_include_pad` holds and by the
/// number inside the input otherwise, never by less than one.
pub fn avg_pool3d_impl<T: Copy, A: Fn(T, T) -> T, D: Fn(T, usize) -> T>(
    x: HostTensor<T>,
    kernel_size: [usize; 3],
    stride: [usize; 3],
    padding: [usize; 3],
    count_include_pad: bool,
    ceil_mode: bool,
    dtype: DType,
    zero: T,
    add_fn: &A,
    div_fn: &D,
) -> (r: HostTensor<T>)
    requires
        x.wf(),
        pool3d_ok(x.shape@, kernel_size, stride, padding, [1usize, 1, 1], ceil_mode),
        forall|a: T, b: T| call_requires(*add_fn, (a, b)),
        forall|a: T, n: usize| call_requires(*div_fn, (a, n)),
    ensures
        r.shape@ == pool3d_out_shape(x.shape@, kernel_size, stride, padding, [1usize, 1, 1], ceil_mode),
        r.dtype == dtype,
        r.wf(),
        avg_pool_result(*add_fn, *div_fn, zero, x.data@, x.shape@, kernel_size, stride, padding, count_include_pad, ceil_mode, r.data@),
{
    let ghost o3 = pool3d_out_dims(spatial_dims(x.shape@), kernel_size, stride, padding, [1usize, 1, 1], ceil_mode);
    proof {
        lemma_numel_5(x.shape@);
    }
    let batch_size = x.shape[0];
    let channels = x.shape[1];
    let in_d = x.shape[2];
    let in_h = x.shape[3];
    let in_w = x.shape[4];

    let out_d = pool_output_size(in_d, kernel_size[0], padding[0], stride[0], 1, ceil_mode);
    let out_h = pool_output_size(in_h, kernel_size[1], padding[1], stride[1], 1, ceil_mode);
    let out_w = pool_output_size(in_w, kernel_size[2], padding[2], stride[2], 1, ceil_mode);

    assert(out_d * out_h <= out_d * out_h * out_w || out_w == 0) by (nonlinear_arith)
        requires out_w >= 0, out_d * out_h >= 0;
    assert(in_d * in_h <= in_d * in_h * in_w || in_w == 0) by (nonlinear_arith)
        requires in_w >= 0, in_d * in_h >= 0;
    assert(in_d * in_h * in_w <= usize::MAX);
    assert(out_d * out_h * out_w <= usize::MAX);
    let bc_total = batch_size * channels;
    let in_spatial = if in_w == 0 { 0 } else { in_d * in_h * in_w };
    let spatial_out = if out_w == 0 { 0 } else { out_d * out_h * out_w };
    assert(in_w == 0 ==> in_d * in_h * in_w == 0) by (nonlinear_arith);
    assert(out_w == 0 ==> out_d * out_h * out_w == 0) by (nonlinear_arith);
    assert(in_spatial == in_d * in_h * in_w);
    assert(spatial_out == out_d * out_h * out_w);
    let total = bc_total * spatial_out;
    assert(x.data.len() == bc_total * in_spatial) by (nonlinear_arith)
        requires
            x.data.len() == batch_size * channels * in_d * in_h * in_w,
            bc_total == batch_size * channels,
            in_spatial == in_d * in_h * in_w;
    assert(total == bc_total * out_d * out_h * out_w) by (nonlinear_arith)
        requires total == bc_total * spatial_out, spatial_out == out_d * out_h * out_w;

    let mut output: Vec<T> = Vec::new();
    let mut i: usize = 0;
    while i < total
        invariant
            i <= total,
            output.len() == i,
            total == bc_total * out_d * out_h * out_w,
            x.data.len() == bc_total * in_spatial,
            in_spatial == in_d * in_h * in_w,
            in_spatial <= usize::MAX,
            x.shape@.len() == 5,
            in_d == x.shape[2],
            in_h == x.shape[3],
            in_w == x.shape[4],
            o3 == (out_d as int, out_h as int, out_w as int),
            kernel_size[1] > 0,
            kernel_size[2] > 0,
            kernel_size[0] * kernel_size[1] * kernel_size[2] <= usize::MAX,
            in_d + 2 * padding[0] <= usize::MAX,
            in_h + 2 * padding[1] <= usize::MAX,
            in_w + 2 * padding[2] <= usize::MAX,
            forall|a: T, b: T| call_requires(*add_fn, (a, b)),
            forall|a: T, n: usize| call_requires(*div_fn, (a, n)),
            forall|j: int| 0 <= j < i ==> #[trigger] avg_pool_value(
                *add_fn, *div_fn, zero, x.data@, x.shape@, kernel_size, stride, padding, count_include_pad, o3, j, output[j]),
        decreases total - i,
    {
        assert(out_d > 0 && out_h > 0 && out_w > 0) by (nonlinear_arith)
            requires i < total, total == bc_total * out_d * out_h * out_w;
        let (bc, od, oh, ow) = unflatten4_exec(i, Ghost(bc_total as int), out_d, out_h, out_w);
        proof {
            assert((bc + 1) * in_spatial <= bc_total * in_spatial) by (nonlinear_arith)
                requires bc + 1 <= bc_total, in_spatial >= 0;
            assert((bc + 1) * in_spatial == bc * in_spatial + in_spatial) by (nonlinear_arith);
        }
        let base = bc * in_spatial;
        let (sum, count, pad_count) = avg_window(
            &x.data,
            base,
            [in_d, in_h, in_w],
            kernel_size,
            stride,
            padding,
            [od, oh, ow],
            zero,
            add_fn,
        );
        let divisor = if count_include_pad {
            if pad_count >= 1 { pad_count } else { 1 }
        } else {
            if count >= 1 { count } else { 1 }
        };
        let v = div_fn(sum, divisor);
        output.push(v);
        proof {
            assert([in_d, in_h, in_w] =~= spatial_dims(x.shape@));
            let pos = unflatten4(i as int, o3.0, o3.1, o3.2);
            let wp = (pos.1, pos.2, pos.3);
            assert(pos.0 * (x.shape[2] * x.shape[3] * x.shape[4]) == base);
            assert(wp == (od as int, oh as int, ow as int));
            assert(folds_to(*add_fn, zero, avg_window_steps(x.data@, pos.0 * (x.shape[2] * x.shape[3] * x.shape[4]), spatial_dims(x.shape@), kernel_size, stride, padding, wp), sum));
            assert(avg_divisor(spatial_dims(x.shape@), kernel_size, stride, padding, wp, count_include_pad) == divisor);
            assert(avg_pool_value(
                *add_fn, *div_fn, zero, x.data@, x.shape@, kernel_size, stride, padding, count_include_pad, o3, i as int, output[i as int]));
        }
        i += 1;
    }
    let out_shape = vec![batch_size, channels, out_d, out_h, out_w];
    proof {
        lemma_numel_5(out_shape@);
        assert(total == batch_size * channels * out_d * out_h * out_w) by (nonlinear_arith)
            requires total == bc_total * out_d * out_h * out_w, bc_total == batch_size * channels;
    }
    HostTensor::new(output, out_shape, dtype)
}

/// 3D average pooling, tagged f32.
pub fn avg_pool3d_f32<T: Copy, A: Fn(T, T) -> T, D: Fn(T, usize) -> T>(
    x: HostTensor<T>,
    kernel_size: [usize; 3],
    stride: [usize; 3],
    padding: [usize; 3],
    count_include_pad: bool,
    ceil_mode: bool,
    zero: T,
    add_fn: &A,
    div_fn: &D,
) -> (r: HostTensor<T>)
    requires
        x.wf(),
        pool3d_ok(x.shape@, kernel_size, stride, padding, [1usize, 1, 1], ceil_mode),
        forall|a: T, b: T| call_requires(*add_fn, (a, b)),
        forall|a: T, n: usize| call_requires(*div_fn, (a, n)),
    ensures
        r.shape@ == pool3d_out_shape(x.shape@, kernel_size, stride, padding, [1usize, 1, 1], ceil_mode),
        r.dtype == DType::F32,
        r.wf(),
        avg_pool_result(*add_fn, *div_fn, zero, x.data@, x.shape@, kernel_size, stride, padding, count_include_pad, ceil_mode, r.data@),
{
    avg_pool3d_impl(x, kernel_size, stride, padding, count_include_pad, ceil_mode, DType::F32, zero, add_fn, div_fn)
}

/// 3D average pooling, tagged f64.
pub fn avg_pool3d_f64<T: Copy, A: Fn(T, T) -> T, D: Fn(T, usize) -> T>(
    x: HostTensor<T>,
    kernel_size: [usize; 3],
    stride: [usize; 3],
    padding: [usize; 3],
    count_include_pad: bool,
    ceil_mode: bool,
    zero: T,
    add_fn: &A,
    div_fn: &D,
) -> (r: HostTensor<T>)
    requires
        x.wf(),
        pool3d_ok(x.shape@, kernel_size, stride, padding, [1usize, 1, 1], ceil_mode),
        forall|a: T, b: T| call_requires(*add_fn, (a, b)),
        forall|a: T, n: usize| call_requires(*div_fn, (a, n)),
    ensures
        r.shape@ == pool3d_out_shape(x.shape@, kernel_size, stride, padding, [1usize, 1, 1], ceil_mode),
        r.dtype == DType::F64,
        r.wf(),
        avg_pool_result(*add_fn, *div_fn, zero, x.data@, x.shape@, kernel_size, stride, padding, count_include_pad, ceil_mode, r.data@),
{
    avg_pool3d_impl(x, kernel_size, stride, padding, count_include_pad, ceil_mode, DType::F64, zero, add_fn, div_fn)
}

/// 3D average pooling, tagged f16.
pub fn avg_pool3d_f16<T: Copy, A: Fn(T, T) -> T, D: Fn(T, usize) -> T>(
    x: HostTensor<T>,
    kernel_size: [usize; 3],
    stride: [usize; 3],
    padding: [usize; 3],
    count_include_pad: bool,
    ceil_mode: bool,
    zero: T,
    add_fn: &A,
    div_fn: &D,
) -> (r: HostTensor<T>)
    requires
        x.wf(),
        pool3d_ok(x.shape@, kernel_size, stride, padding, [1usize, 1, 1], ceil_mode),
        forall|a: T, b: T| call_requires(*add_fn, (a, b)),
        forall|a: T, n: usize| call_requires(*div_fn, (a, n)),
    ensures
        r.shape@ == pool3d_out_shape(x.shape@, kernel_size, stride, padding, [1usize, 1, 1], ceil_mode),
        r.dtype == DType::F16,
        r.wf(),
        avg_pool_result(*add_fn, *div_fn, zero, x.data@, x.shape@, kernel_size, stride, padding, count_include_pad, ceil_mode, r.data@),
{
    avg_pool3d_impl(x, kernel_size, stride, padding, count_include_pad, ceil_mode, DType::F16, zero, add_fn, div_fn)
}

/// 3D average pooling for bf16: the input is widened with `to_f32`, pooled
/// as f32, and the result narrowed back with `from_f32`.
pub fn avg_pool3d_bf16<S: Copy, T: Copy, A: Fn(T, T) -> T, D: Fn(T, usize) -> T, U: Fn(S) -> T, N: Fn(T) -> S>(
    x: HostTensor<S>,
    kernel_size: [usize; 3],
    stride: [usize; 3],
    padding: [usize; 3],
    count_include_pad: bool,
    ceil_mode: bool,
    zero: T,
    add_fn: &A,
    div_fn: &D,
    to_f32: &U,
    from_f32: &N,
) -> (r: HostTensor<S>)
    requires
        x.wf(),
        pool3d_ok(x.shape@, kernel_size, stride, padding, [1usize, 1, 1], ceil_mode),
        forall|a: T, b: T| call_requires(*add_fn, (a, b)),
        forall|a: T, n: usize| call_requires(*div_fn, (a, n)),
        forall|a: S| call_requires(*to_f32, (a,)),
        forall|a: T| call_requires(*from_f32, (a,)),
    ensures
        r.shape@ == pool3d_out_shape(x.shape@, kernel_size, stride, padding, [1usize, 1, 1], ceil_mode),
        r.dtype == DType::BF16,
        r.wf(),
        avg_pool_result_narrowed(*add_fn, *div_fn, zero, *to_f32, *from_f32, x.data@, x.shape@, kernel_size, stride, padding, count_include_pad, ceil_mode, r.data@),
{
    let x_f32 = convert_bf16_to_f32(&x, to_f32);
    let result_f32 = avg_pool3d_f32(x_f32, kernel_size, stride, padding, count_include_pad, ceil_mode, zero, add_fn, div_fn);
    let r = convert_f32_to_bf16(&result_f32, from_f32);
    assert(avg_pool_result(*add_fn, *div_fn, zero, x_f32.data@, x.shape@, kernel_size, stride, padding, count_include_pad, ceil_mode, result_f32.data@));
    r
}

/// 2D average pooling for f32: pooled as a 3D input with a unit depth axis.
pub fn avg_pool2d_f32<T: Copy, A: Fn(T, T) -> T, D: Fn(T, usize) -> T>(
    x: HostTensor<T>,
    kernel_size: [usize; 2],
    stride: [usize; 2],
    padding: [usize; 2],
    count_include_pad: bool,
    ceil_mode: bool,
    zero: T,
    add_fn: &A,
    div_fn: &D,
) -> (r: HostTensor<T>)
    requires
        x.wf(),
        x.shape@.len() == 4,
        pool3d_ok(shape_2d_as_3d(x.shape@), lift2(kernel_size, 1), lift2(stride, 1), lift2(padding, 0), [1usize, 1, 1], ceil_mode),
        forall|a: T, b: T| call_requires(*add_fn, (a, b)),
        forall|a: T, n: usize| call_requires(*div_fn, (a, n)),
    ensures
        r.shape@ == squeeze_shape_2d(pool3d_out_shape(shape_2d_as_3d(x.shape@), lift2(kernel_size, 1), lift2(stride, 1), lift2(padding, 0), [1usize, 1, 1], ceil_mode)),
        r.dtype == DType::F32,
        r.wf(),
        avg_pool_result(*add_fn, *div_fn, zero, x.data@, shape_2d_as_3d(x.shape@), lift2(kernel_size, 1), lift2(stride, 1), lift2(padding, 0), count_include_pad, ceil_mode, r.data@),
{
    proof {
        lemma_wf_2d_as_3d(x.shape@);
    }
    let x_3d = expand_2d_to_3d(x);
    let result = avg_pool3d_f32(
        x_3d,
        [1, kernel_size[0], kernel_size[1]],
        [1, stride[0], stride[1]],
        [0, padding[0], padding[1]],
        count_include_pad,
        ceil_mode,
        zero,
        add_fn,
        div_fn,
    );
    proof {
        assert(pool_out_len(1, 1, 0, 1, 1, ceil_mode) == 1);
        lemma_wf_squeeze_2d(result.shape@);
    }
    squeeze_3d_to_2d(result)
}

/// 2D average pooling for f64: pooled as a 3D input with a unit depth axis.
pub fn avg_pool2d_f64<T: Copy, A: Fn(T, T) -> T, D: Fn(T, usize) -> T>(
    x: HostTensor<T>,
    kernel_size: [usize; 2],
    stride: [usize; 2],
    padding: [usize; 2],
    count_include_pad: bool,
    ceil_mode: bool,
    zero: T,
    add_fn: &A,
    div_fn: &D,
) -> (r: HostTensor<T>)
    requires
        x.wf(),
        x.shape@.len() == 4,
        pool3d_ok(shape_2d_as_3d(x.shape@), lift2(kernel_size, 1), lift2(stride, 1), lift2(padding, 0), [1usize, 1, 1], ceil_mode),
        forall|a: T, b: T| call_requires(*add_fn, (a, b)),
        forall|a: T, n: usize| call_requires(*div_fn, (a, n)),
    ensures
        r.shape@ == squeeze_shape_2d(pool3d_out_shape(shape_2d_as_3d(x.shape@), lift2(kernel_size, 1), lift2(stride, 1), lift2(padding, 0), [1usize, 1, 1], ceil_mode)),
        r.dtype == DType::F64,
        r.wf(),
        avg_pool_result(*add_fn, *div_fn, zero, x.data@, shape_2d_as_3d(x.shape@), lift2(kernel_size, 1), lift2(stride, 1), lift2(padding, 0), count_include_pad, ceil_mode, r.data@),
{
    proof {
        lemma_wf_2d_as_3d(x.shape@);
    }
    let x_3d = expand_2d_to_3d(x);
    let result = avg_pool3d_f64(
        x_3d,
        [1, kernel_size[0], kernel_size[1]],
        [1, stride[0], stride[1]],
        [0, padding[0], padding[1]],
        count_include_pad,
        ceil_mode,
        zero,
        add_fn,
        div_fn,
    );
    proof {
        assert(pool_out_len(1, 1, 0, 1, 1, ceil_mode) == 1);
        lemma_wf_squeeze_2d(result.shape@);
    }
    squeeze_3d_to_2d(result)
}

/// 2D average pooling for f16: pooled as a 3D input with a unit depth axis.
pub fn avg_pool2d_f16<T: Copy, A: Fn(T, T) -> T, D: Fn(T, usize) -> T>(
    x: HostTensor<T>,
    kernel_size: [usize; 2],
    stride: [usize; 2],
    padding: [usize; 2],
    count_include_pad: bool,
    ceil_mode: bool,
    zero: T,
    add_fn: &A,
    div_fn: &D,
) -> (r: HostTensor<T>)
    requires
        x.wf(),
        x.shape@.len() == 4,
        pool3d_ok(shape_2d_as_3d(x.shape@), lift2(kernel_size, 1), lift2(stride, 1), lift2(padding, 0), [1usize, 1, 1], ceil_mode),
        forall|a: T, b: T| call_requires(*add_fn, (a, b)),
        forall|a: T, n: usize| call_requires(*div_fn, (a, n)),
    ensures
        r.shape@ == squeeze_shape_2d(pool3d_out_shape(shape_2d_as_3d(x.shape@), lift2(kernel_size, 1), lift2(stride, 1), lift2(padding, 0), [1usize, 1, 1], ceil_mode)),
        r.dtype == DType::F16,
        r.wf(),
        avg_pool_result(*add_fn, *div_fn, zero, x.data@, shape_2d_as_3d(x.shape@), lift2(kernel_size, 1), lift2(stride, 1), lift2(padding, 0), count_include_pad, ceil_mode, r.data@),
{
    proof {
        lemma_wf_2d_as_3d(x.shape@);
    }
    let x_3d = expand_2d_to_3d(x);
    let result = avg_pool3d_f16(
        x_3d,
        [1, kernel_size[0], kernel_size[1]],
        [1, stride[0], stride[1]],
        [0, padding[0], padding[1]],
        count_include_pad,
        ceil_mode,
        zero,
        add_fn,
        div_fn,
    );
    proof {
        assert(pool_out_len(1, 1, 0, 1, 1, ceil_mode) == 1);
        lemma_wf_squeeze_2d(result.shape@);
    }
    squeeze_3d_to_2d(result)
}

/// 2D average pooling for bf16: pooled as a 3D input with a unit depth axis.
pub fn avg_pool2d_bf16<S: Copy, T: Copy, A: Fn(T, T) -> T, D: Fn(T, usize) -> T, U: Fn(S) -> T, N: Fn(T) -> S>(
    x: HostTensor<S>,
    kernel_size: [usize; 2],
    stride: [usize; 2],
    padding: [usize; 2],
    count_include_pad: bool,
    ceil_mode: bool,
    zero: T,
    add_fn: &A,
    div_fn: &D,
    to_f32: &U,
    from_f32: &N,
) -> (r: HostTensor<S>)
    requires
        x.wf(),
        x.shape@.len() == 4,
        pool3d_ok(shape_2d_as_3d(x.shape@), lift2(kernel_size, 1), lift2(stride, 1), lift2(padding, 0), [1usize, 1, 1], ceil_mode),
        forall|a: T, b: T| call_requires(*add_fn, (a, b)),
        forall|a: T, n: usize| call_requires(*div_fn, (a, n)),
        forall|a: S| call_requires(*to_f32, (a,)),
        forall|a: T| call_requires(*from_f32, (a,)),
    ensures
        r.shape@ == squeeze_shape_2d(pool3d_out_shape(shape_2d_as_3d(x.shape@), lift2(kernel_size, 1), lift2(stride, 1), lift2(padding, 0), [1usize, 1, 1], ceil_mode)),
        r.dtype == DType::BF16,
        r.wf(),
        avg_pool_result_narrowed(*add_fn, *div_fn, zero, *to_f32, *from_f32, x.data@, shape_2d_as_3d(x.shape@), lift2(kernel_size, 1), lift2(stride, 1), lift2(padding, 0), count_include_pad, ceil_mode, r.data@),
{
    proof {
        lemma_wf_2d_as_3d(x.shape@);
    }
    let x_3d = expand_2d_to_3d(x);
    let result = avg_pool3d_bf16(
        x_3d,
        [1, kernel_size[0], kernel_size[1]],
        [1, stride[0], stride[1]],
        [0, padding[0], padding[1]],
        count_include_pad,
        ceil_mode,
        zero,
        add_fn,
        div_fn, to_f32, from_f32,
    );
    proof {
        assert(pool_out_len(1, 1, 0, 1, 1, ceil_mode) == 1);
        lemma_wf_squeeze_2d(result.shape@);
    }
    squeeze_3d_to_2d(result)
}

/// 1D average pooling for f32: pooled as a 3D input with unit depth and
/// height axes.
pub fn avg_pool1d_f32<T: Copy, A: Fn(T, T) -> T, D: Fn(T, usize) -> T>(
    x: HostTensor<T>,
    kernel_size: usize,
    stride: usize,
    padding: usize,
    count_include_pad: bool,
    ceil_mode: bool,
    zero: T,
    add_fn: &A,
    div_fn: &D,
) -> (r: HostTensor<T>)
    requires
        x.wf(),
        x.shape@.len() == 3,
        pool3d_ok(shape_1d_as_3d(x.shape@), lift1(kernel_size, 1), lift1(stride, 1), lift1(padding, 0), [1usize, 1, 1], ceil_mode),
        forall|a: T, b: T| call_requires(*add_fn, (a, b)),
        forall|a: T, n: usize| call_requires(*div_fn, (a, n)),
    ensures
        r.shape@ == squeeze_shape_1d(pool3d_out_shape(shape_1d_as_3d(x.shape@), lift1(kernel_size, 1), lift1(stride, 1), lift1(padding, 0), [1usize, 1, 1], ceil_mode)),
        r.dtype == DType::F32,
        r.wf(),
        avg_pool_result(*add_fn, *div_fn, zero, x.data@, shape_1d_as_3d(x.shape@), lift1(kernel_size, 1), lift1(stride, 1), lift1(padding, 0), count_include_pad, ceil_mode, r.data@),
{
    proof {
        lemma_wf_1d_as_3d(x.shape@);
    }
    let x_3d = expand_1d_to_3d(x);
    let result = avg_pool3d_f32(
        x_3d,
        [1, 1, kernel_size],
        [1, 1, stride],
        [0, 0, padding],
        count_include_pad,
        ceil_mode,
        zero,
        add_fn,
        div_fn,
    );
    proof {
        lemma_wf_squeeze_1d(result.shape@);
    }
    squeeze_3d_to_1d(result)
}

} // verus!
