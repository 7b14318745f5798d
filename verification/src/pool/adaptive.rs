//! Adaptive average pooling: output position `o` of an axis of `out`
//! positions averages input positions `floor(o * in / out)` up to (not
//! including) `ceil((o + 1) * in / out)`.
use vstd::prelude::*;
use crate::tensor::{DType, HostTensor, shape_numel, lemma_numel_5};
use crate::fold::{add_step, add_trace, folds_to, lemma_add_trace_push};
use crate::arith::{lemma_mul_nonneg, lemma_offset2};
use super::{
    ceil_div, unflatten3, unflatten4, offset3, shape_2d_as_3d, shape_1d_as_3d, converted,
    convert_bf16_to_f32, convert_f32_to_bf16, expand_2d_to_3d, squeeze_3d_to_2d, expand_1d_to_3d,
    squeeze_3d_to_1d, unflatten3_exec, unflatten4_exec, offset3_exec,
};
use super::max::{spatial_dims, squeeze_shape_2d, squeeze_shape_1d, lemma_wf_2d_as_3d, lemma_wf_1d_as_3d, lemma_wf_squeeze_2d, lemma_wf_squeeze_1d};
use vstd::arithmetic::div_mod::{lemma_fundamental_div_mod, lemma_mod_bound, lemma_div_is_ordered, lemma_div_by_multiple};
use crate::fold::{op_deterministic, lemma_folds_to_unique, lemma_count_true_all};
use crate::arith::lemma_div_mod_offset;
use super::pool_out_len;
use super::max::pool3d_out_dims;
use super::average::{avg_pool_result, avg_pool_value, avg_window_steps, avg_window_inside, avg_window_tap, avg_divisor};

verus! {

/// First input position pooled into output position `o`.
pub open spec fn adaptive_start(o: int, input: int, output: int) -> int {
    (o * input) / output
}

/// One past the last input position pooled into output position `o`.
pub open spec fn adaptive_end(o: int, input: int, output: int) -> int {
    ceil_div((o + 1) * input, output)
}

/// Adaptive windows lie inside the input, and are non-empty when the input is.
pub proof fn lemma_adaptive_window_bounds(o: int, input: int, output: int)
    requires
        0 <= o < output,
        0 <= input,
    ensures
        0 <= adaptive_start(o, input, output) <= adaptive_end(o, input, output) <= input,
        input > 0 ==> adaptive_start(o, input, output) < adaptive_end(o, input, output),
{
    let a = o * input;
    let b = (o + 1) * input;
    lemma_mul_nonneg(o, input);
    assert(b == a + input) by (nonlinear_arith)
        requires b == (o + 1) * input, a == o * input;
    assert(b <= output * input) by (nonlinear_arith)
        requires b == (o + 1) * input, o + 1 <= output, input >= 0;
    lemma_fundamental_div_mod(a, output);
    lemma_mod_bound(a, output);
    lemma_fundamental_div_mod(b, output);
    lemma_mod_bound(b, output);
    lemma_div_is_ordered(a, b, output);
    assert(a / output >= 0) by (nonlinear_arith)
        requires a >= 0, output > 0;
    lemma_div_is_ordered(b, output * input, output);
    assert(output * input == input * output) by (nonlinear_arith);
    lemma_div_by_multiple(input, output);
    assert(b / output <= input);
    if b / output == input && b % output != 0 {
        assert(output * (b / output) == output * input) by (nonlinear_arith)
            requires b / output == input;
        assert(false);
    }
    if input > 0 {
        if b % output == 0 {
            assert(output * (b / output) == b);
            assert(output * (a / output) <= a);
            assert(output * (a / output) < output * (b / output));
            if a / output >= b / output {
                assert(output * (a / output) >= output * (b / output)) by (nonlinear_arith)
                    requires a / output >= b / output, output > 0;
            }
        }
    }
}

/// Exec computation of an adaptive window along one axis.
pub fn adaptive_range(o: usize, input: usize, output: usize) -> (r: (usize, usize))
    requires
        o < output,
        output * input <= usize::MAX,
    ensures
        r.0 == adaptive_start(o as int, input as int, output as int),
        r.1 == adaptive_end(o as int, input as int, output as int),
        r.0 <= r.1 <= input,
{
    proof {
        lemma_adaptive_window_bounds(o as int, input as int, output as int);
        assert((o + 1) * input <= output * input) by (nonlinear_arith)
            requires o + 1 <= output, input >= 0;
        assert(o * input <= (o + 1) * input) by (nonlinear_arith)
            requires input >= 0;
    }
    let start = (o * input) / output;
    let b = (o + 1) * input;
    let end = b / output + if b % output == 0 { 0 } else { 1 };
    (start, end)
}

/// Flattened position `q` of the window box of output position `pos`: the
/// plane offset of the input element it averages.
pub open spec fn adaptive_window_offset(in_dims: [usize; 3], out_dims: [usize; 3], pos: (int, int, int), q: int) -> int {
    let ds = adaptive_start(pos.0, in_dims[0] as int, out_dims[0] as int);
    let hs = adaptive_start(pos.1, in_dims[1] as int, out_dims[1] as int);
    let ws = adaptive_start(pos.2, in_dims[2] as int, out_dims[2] as int);
    let hl = adaptive_end(pos.1, in_dims[1] as int, out_dims[1] as int) - hs;
    let wl = adaptive_end(pos.2, in_dims[2] as int, out_dims[2] as int) - ws;
    let b = unflatten3(q, hl, wl);
    offset3(ds + b.0, hs + b.1, ws + b.2, in_dims[1] as int, in_dims[2] as int)
}

/// Number of input elements averaged into output position `pos`.
pub open spec fn adaptive_window_volume(in_dims: [usize; 3], out_dims: [usize; 3], pos: (int, int, int)) -> int {
    (adaptive_end(pos.0, in_dims[0] as int, out_dims[0] as int) - adaptive_start(pos.0, in_dims[0] as int, out_dims[0] as int))
        * (adaptive_end(pos.1, in_dims[1] as int, out_dims[1] as int) - adaptive_start(pos.1, in_dims[1] as int, out_dims[1] as int))
        * (adaptive_end(pos.2, in_dims[2] as int, out_dims[2] as int) - adaptive_start(pos.2, in_dims[2] as int, out_dims[2] as int))
}

/// The values an adaptive window adds up: its box in depth, height, width order.
pub open spec fn adaptive_window_steps<T>(
    x: Seq<T>,
    base: int,
    in_dims: [usize; 3],
    out_dims: [usize; 3],
    pos: (int, int, int),
) -> Seq<Option<T>> {
    Seq::new(
        adaptive_window_volume(in_dims, out_dims, pos) as nat,
        |q: int| Option::Some(x[base + adaptive_window_offset(in_dims, out_dims, pos, q)]),
    )
}

/// Sums one adaptive window; returns the sum and the window's volume.
fn adaptive_window<T: Copy, A: Fn(T, T) -> T>(
    x: &Vec<T>,
    base: usize,
    in_dims: [usize; 3],
    out_dims: [usize; 3],
    pos: [usize; 3],
    zero: T,
    add_fn: &A,
) -> (r: (T, usize))
    requires
        base + in_dims[0] * in_dims[1] * in_dims[2] <= x.len(),
        in_dims[0] * in_dims[1] * in_dims[2] <= usize::MAX,
        pos[0] < out_dims[0],
        pos[1] < out_dims[1],
        pos[2] < out_dims[2],
        out_dims[0] * in_dims[0] <= usize::MAX,
        out_dims[1] * in_dims[1] <= usize::MAX,
        out_dims[2] * in_dims[2] <= usize::MAX,
        forall|a: T, b: T| call_requires(*add_fn, (a, b)),
    ensures
        ({
            let p = (pos[0] as int, pos[1] as int, pos[2] as int);
            &&& folds_to(*add_fn, zero, adaptive_window_steps(x@, base as int, in_dims, out_dims, p), r.0)
            &&& r.1 == adaptive_window_volume(in_dims, out_dims, p)
        }),
{
    let ghost p = (pos[0] as int, pos[1] as int, pos[2] as int);
    let ghost steps = adaptive_window_steps(x@, base as int, in_dims, out_dims, p);
    let (ds, de) = adaptive_range(pos[0], in_dims[0], out_dims[0]);
    let (hs, he) = adaptive_range(pos[1], in_dims[1], out_dims[1]);
    let (ws, we) = adaptive_range(pos[2], in_dims[2], out_dims[2]);
    let dl = de - ds;
    let hl = he - hs;
    let wl = we - ws;
    proof {
        assert(dl * hl <= in_dims[0] * in_dims[1]) by (nonlinear_arith)
            requires dl <= in_dims[0], hl <= in_dims[1], dl >= 0, hl >= 0;
        assert(dl * hl * wl <= in_dims[0] * in_dims[1] * in_dims[2]) by (nonlinear_arith)
            requires dl * hl <= in_dims[0] * in_dims[1], wl <= in_dims[2], wl >= 0, dl * hl >= 0;
        assert(wl > 0 ==> in_dims[0] * in_dims[1] <= in_dims[0] * in_dims[1] * in_dims[2]) by (nonlinear_arith)
            requires wl <= in_dims[2], in_dims[0] * in_dims[1] >= 0;
        assert(wl == 0 ==> dl * hl * wl == 0) by (nonlinear_arith);
        lemma_mul_nonneg(dl as int, hl as int);
    }
    let vol = if wl == 0 { 0 } else { dl * hl * wl };
    let mut sum = zero;
    let ghost mut trace: Seq<T> = seq![zero];
    let mut q: usize = 0;
    assert(steps.take(0) =~= Seq::<Option<T>>::empty());
    while q < vol
        invariant
            vol == dl * hl * wl,
            q <= vol,
            steps.len() == vol,
            ds + dl <= in_dims[0],
            hs + hl <= in_dims[1],
            ws + wl <= in_dims[2],
            ds == adaptive_start(p.0, in_dims[0] as int, out_dims[0] as int),
            hs == adaptive_start(p.1, in_dims[1] as int, out_dims[1] as int),
            ws == adaptive_start(p.2, in_dims[2] as int, out_dims[2] as int),
            hl == adaptive_end(p.1, in_dims[1] as int, out_dims[1] as int) - hs,
            wl == adaptive_end(p.2, in_dims[2] as int, out_dims[2] as int) - ws,
            base + in_dims[0] * in_dims[1] * in_dims[2] <= x.len(),
            in_dims[0] * in_dims[1] * in_dims[2] <= usize::MAX,
            forall|a: T, b: T| call_requires(*add_fn, (a, b)),
            steps == adaptive_window_steps(x@, base as int, in_dims, out_dims, p),
            add_trace(*add_fn, zero, steps.take(q as int), trace),
            trace.last() == sum,
        decreases vol - q,
    {
        assert(hl > 0 && wl > 0) by (nonlinear_arith)
            requires q < vol, vol == dl * hl * wl, dl >= 0, hl >= 0, wl >= 0;
        let (a, b, c) = unflatten3_exec(q, dl, hl, wl);
        let local = offset3_exec(ds + a, hs + b, ws + c, Ghost(in_dims[0] as int), in_dims[1], in_dims[2]);
        let ghost before = sum;
        sum = add_fn(sum, x[base + local]);
        proof {
            assert(steps[q as int] == Option::Some(x@[base + local]));
            assert(add_step(*add_fn, before, steps[q as int], sum));
            lemma_add_trace_push(*add_fn, zero, steps.take(q as int), trace, steps[q as int], sum);
            assert(steps.take(q as int).push(steps[q as int]) =~= steps.take(q + 1));
            trace = trace.push(sum);
        }
        q += 1;
    }
    assert(steps.take(vol as int) =~= steps);
    (sum, vol)
}

/// The arguments on which adaptive pooling of a `[batch, channels, d, h, w]`
/// tensor to output extents `out` is defined: the products the windows are
/// computed from, the plane sizes and the output size fit in `usize`.
pub open spec fn adaptive3d_ok(shape: Seq<usize>, out: [usize; 3]) -> bool {
    &&& shape.len() == 5
    &&& out[0] * shape[2] <= usize::MAX
    &&& out[1] * shape[3] <= usize::MAX
    &&& out[2] * shape[4] <= usize::MAX
    &&& shape[0] * shape[1] <= usize::MAX
    &&& shape[2] * shape[3] * shape[4] <= usize::MAX
    &&& out[0] * out[1] * out[2] <= usize::MAX
    &&& shape[0] * shape[1] * (out[0] * out[1] * out[2]) <= usize::MAX
}

/// `v` is what adaptive pooling can yield for output element `i`: the sum of
/// its window divided (with `div_fn`) by the window's volume, at least one.
pub open spec fn adaptive_pool_value<T, A: Fn(T, T) -> T, D: Fn(T, usize) -> T>(
    add_fn: A,
    div_fn: D,
    zero: T,
    x: Seq<T>,
    shape: Seq<usize>,
    out: [usize; 3],
    i: int,
    v: T,
) -> bool {
    let pos = unflatten4(i, out[0] as int, out[1] as int, out[2] as int);
    let base = pos.0 * (shape[2] * shape[3] * shape[4]);
    let wp = (pos.1, pos.2, pos.3);
    let vol = adaptive_window_volume(spatial_dims(shape), out, wp);
    exists|sum: T| {
        &&& #[trigger] folds_to(add_fn, zero, adaptive_window_steps(x, base, spatial_dims(shape), out, wp), sum)
        &&& call_ensures(div_fn, (sum, (if vol >= 1 { vol } else { 1 }) as usize), v)
    }
}

/// `res` is what adaptive pooling of `x` (of shape `shape`) to `out` yields.
pub open spec fn adaptive_pool_result<T, A: Fn(T, T) -> T, D: Fn(T, usize) -> T>(
    add_fn: A,
    div_fn: D,
    zero: T,
    x: Seq<T>,
    shape: Seq<usize>,
    out: [usize; 3],
    res: Seq<T>,
) -> bool {
    forall|i: int| 0 <= i < res.len() ==> #[trigger] adaptive_pool_value(add_fn, div_fn, zero, x, shape, out, i, res[i])
}

/// The bf16 variant: what adaptive pooling of the widened input yields, narrowed.
pub open spec fn adaptive_pool_result_narrowed<S, T, A: Fn(T, T) -> T, D: Fn(T, usize) -> T, U: Fn(S) -> T, N: Fn(T) -> S>(
    add_fn: A,
    div_fn: D,
    zero: T,
    to_f32: U,
    from_f32: N,
    x: Seq<S>,
    shape: Seq<usize>,
    out: [usize; 3],
    res: Seq<S>,
) -> bool {
    exists|wide: Seq<T>, wide_out: Seq<T>| {
        &&& converted(to_f32, x, wide)
        &&& #[trigger] adaptive_pool_result(add_fn, div_fn, zero, wide, shape, out, wide_out)
        &&& converted(from_f32, wide_out, res)
    }
}

/// Generic 3D adaptive average pooling implementation.
pub fn adaptive_avg_pool3d_impl<T: Copy, A: Fn(T, T) -> T, D: Fn(T, usize) -> T>(
    x: HostTensor<T>,
    output_size: [usize; 3],
    dtype: DType,
    zero: T,
    add_fn: &A,
    div_fn: &D,
) -> (r: HostTensor<T>)
    requires
        x.wf(),
        adaptive3d_ok(x.shape@, output_size),
        forall|a: T, b: T| call_requires(*add_fn, (a, b)),
        forall|a: T, n: usize| call_requires(*div_fn, (a, n)),
    ensures
        r.shape@ == seq![x.shape[0], x.shape[1], output_size[0], output_size[1], output_size[2]],
        r.dtype == dtype,
        r.wf(),
        adaptive_pool_result(*add_fn, *div_fn, zero, x.data@, x.shape@, output_size, r.data@),
{
    proof {
        lemma_numel_5(x.shape@);
    }
    let batch_size = x.shape[0];
    let channels = x.shape[1];
    let in_d = x.shape[2];
    let in_h = x.shape[3];
    let in_w = x.shape[4];
    let out_d = output_size[0];
    let out_h = output_size[1];
    let out_w = output_size[2];

    assert(out_d * out_h <= out_d * out_h * out_w || out_w == 0) by (nonlinear_arith)
        requires out_w >= 0, out_d * out_h >= 0;
    assert(in_d * in_h <= in_d * in_h * in_w || in_w == 0) by (nonlinear_arith)
        requires in_w >= 0, in_d * in_h >= 0;
    let bc_total = batch_size * channels;
    let in_spatial = if in_w == 0 { 0 } else { in_d * in_h * in_w };
    let spatial_out = if out_w == 0 { 0 } else { out_d * out_h * out_w };
    assert(in_w == 0 ==> in_d * in_h * in_w == 0) by (nonlinear_arith);
    assert(out_w == 0 ==> out_d * out_h * out_w == 0) by (nonlinear_arith);
    assert(in_spatial == in_d * in_h * in_w);
    assert(spatial_out == out_d * out_h * out_w);
    let total = bc_total * spatial_out;
    assert(x.data.len() == bc_total * in_spatial) by (nonlinear_arith)
        requires
            x.data.len() == batch_size * channels * in_d * in_h * in_w,
            bc_total == batch_size * channels,
            in_spatial == in_d * in_h * in_w;
    assert(total == bc_total * out_d * out_h * out_w) by (nonlinear_arith)
        requires total == bc_total * spatial_out, spatial_out == out_d * out_h * out_w;

    let mut output: Vec<T> = Vec::new();
    let mut i: usize = 0;
    while i < total
        invariant
            i <= total,
            output.len() == i,
            total == bc_total * out_d * out_h * out_w,
            x.data.len() == bc_total * in_spatial,
            in_spatial == in_d * in_h * in_w,
            in_spatial <= usize::MAX,
            x.shape@.len() == 5,
            in_d == x.shape[2],
            in_h == x.shape[3],
            in_w == x.shape[4],
            out_d == output_size[0],
            out_h == output_size[1],
            out_w == output_size[2],
            out_d * in_d <= usize::MAX,
            out_h * in_h <= usize::MAX,
            out_w * in_w <= usize::MAX,
            forall|a: T, b: T| call_requires(*add_fn, (a, b)),
            forall|a: T, n: usize| call_requires(*div_fn, (a, n)),
            forall|j: int| 0 <= j < i ==> #[trigger] adaptive_pool_value(
                *add_fn, *div_fn, zero, x.data@, x.shape@, output_size, j, output[j]),
        decreases total - i,
    {
        assert(out_d > 0 && out_h > 0 && out_w > 0) by (nonlinear_arith)
            requires i < total, total == bc_total * out_d * out_h * out_w;
        let (bc, od, oh, ow) = unflatten4_exec(i, Ghost(bc_total as int), out_d, out_h, out_w);
        proof {
            assert((bc + 1) * in_spatial <= bc_total * in_spatial) by (nonlinear_arith)
                requires bc + 1 <= bc_total, in_spatial >= 0;
            assert((bc + 1) * in_spatial == bc * in_spatial + in_spatial) by (nonlinear_arith);
        }
        let base = bc * in_spatial;
        let (sum, count) = adaptive_window(
            &x.data,
            base,
            [in_d, in_h, in_w],
            output_size,
            [od, oh, ow],
            zero,
            add_fn,
        );
        let divisor = if count >= 1 { count } else { 1 };
        let v = div_fn(sum, divisor);
        output.push(v);
        proof {
            assert([in_d, in_h, in_w] =~= spatial_dims(x.shape@));
            let pos = unflatten4(i as int, out_d as int, out_h as int, out_w as int);
            let wp = (pos.1, pos.2, pos.3);
            assert(pos.0 * (x.shape[2] * x.shape[3] * x.shape[4]) == base);
            assert(wp == (od as int, oh as int, ow as int));
            assert(folds_to(*add_fn, zero, adaptive_window_steps(x.data@, pos.0 * (x.shape[2] * x.shape[3] * x.shape[4]), spatial_dims(x.shape@), output_size, wp), sum));
            assert(adaptive_pool_value(*add_fn, *div_fn, zero, x.data@, x.shape@, output_size, i as int, output[i as int]));
        }
        i += 1;
    }
    let out_shape = vec![batch_size, channels, out_d, out_h, out_w];
    proof {
        lemma_numel_5(out_shape@);
        assert(total == batch_size * channels * out_d * out_h * out_w) by (nonlinear_arith)
            requires total == bc_total * out_d * out_h * out_w, bc_total == batch_size * channels;
    }
    HostTensor::new(output, out_shape, dtype)
}

/// 3D adaptive average pooling, tagged f32.
pub fn adaptive_avg_pool3d_f32<T: Copy, A: Fn(T, T) -> T, D: Fn(T, usize) -> T>(
    x: HostTensor<T>,
    output_size: [usize; 3],
    zero: T,
    add_fn: &A,
    div_fn: &D,
) -> (r: HostTensor<T>)
    requires
        x.wf(),
        adaptive3d_ok(x.shape@, output_size),
        forall|a: T, b: T| call_requires(*add_fn, (a, b)),
        forall|a: T, n: usize| call_requires(*div_fn, (a, n)),
    ensures
        r.shape@ == seq![x.shape[0], x.shape[1], output_size[0], output_size[1], output_size[2]],
        r.dtype == DType::F32,
        r.wf(),
        adaptive_pool_result(*add_fn, *div_fn, zero, x.data@, x.shape@, output_size, r.data@),
{
    adaptive_avg_pool3d_impl(x, output_size, DType::F32, zero, add_fn, div_fn)
}

/// 3D adaptive average pooling, tagged f64.
pub fn adaptive_avg_pool3d_f64<T: Copy, A: Fn(T, T) -> T, D: Fn(T, usize) -> T>(
    x: HostTensor<T>,
    output_size: [usize; 3],
    zero: T,
    add_fn: &A,
    div_fn: &D,
) -> (r: HostTensor<T>)
    requires
        x.wf(),
        adaptive3d_ok(x.shape@, output_size),
        forall|a: T, b: T| call_requires(*add_fn, (a, b)),
        forall|a: T, n: usize| call_requires(*div_fn, (a, n)),
    ensures
        r.shape@ == seq![x.shape[0], x.shape[1], output_size[0], output_size[1], output_size[2]],
        r.dtype == DType::F64,
        r.wf(),
        adaptive_pool_result(*add_fn, *div_fn, zero, x.data@, x.shape@, output_size, r.data@),
{
    adaptive_avg_pool3d_impl(x, output_size, DType::F64, zero, add_fn, div_fn)
}

/// 3D adaptive average pooling, tagged f16.
pub fn adaptive_avg_pool3d_f16<T: Copy, A: Fn(T, T) -> T, D: Fn(T, usize) -> T>(
    x: HostTensor<T>,
    output_size: [usize; 3],
    zero: T,
    add_fn: &A,
    div_fn: &D,
) -> (r: HostTensor<T>)
    requires
        x.wf(),
        adaptive3d_ok(x.shape@, output_size),
        forall|a: T, b: T| call_requires(*add_fn, (a, b)),
        forall|a: T, n: usize| call_requires(*div_fn, (a, n)),
    ensures
        r.shape@ == seq![x.shape[0], x.shape[1], output_size[0], output_size[1], output_size[2]],
        r.dtype == DType::F16,
        r.wf(),
        adaptive_pool_result(*add_fn, *div_fn, zero, x.data@, x.shape@, output_size, r.data@),
{
    adaptive_avg_pool3d_impl(x, output_size, DType::F16, zero, add_fn, div_fn)
}

/// 3D adaptive average pooling for bf16: widened with `to_f32`, pooled as
/// f32, narrowed with `from_f32`.
pub fn adaptive_avg_pool3d_bf16<S: Copy, T: Copy, A: Fn(T, T) -> T, D: Fn(T, usize) -> T, U: Fn(S) -> T, N: Fn(T) -> S>(
    x: HostTensor<S>,
    output_size: [usize; 3],
    zero: T,
    add_fn: &A,
    div_fn: &D,
    to_f32: &U,
    from_f32: &N,
) -> (r: HostTensor<S>)
    requires
        x.wf(),
        adaptive3d_ok(x.shape@, output_size),
        forall|a: T, b: T| call_requires(*add_fn, (a, b)),
        forall|a: T, n: usize| call_requires(*div_fn, (a, n)),
        forall|a: S| call_requires(*to_f32, (a,)),
        forall|a: T| call_requires(*from_f32, (a,)),
    ensures
        r.shape@ == seq![x.shape[0], x.shape[1], output_size[0], output_size[1], output_size[2]],
        r.dtype == DType::BF16,
        r.wf(),
        adaptive_pool_result_narrowed(*add_fn, *div_fn, zero, *to_f32, *from_f32, x.data@, x.shape@, output_size, r.data@),
{
    let x_f32 = convert_bf16_to_f32(&x, to_f32);
    let result_f32 = adaptive_avg_pool3d_f32(x_f32, output_size, zero, add_fn, div_fn);
    let r = convert_f32_to_bf16(&result_f32, from_f32);
    assert(adaptive_pool_result(*add_fn, *div_fn, zero, x_f32.data@, x.shape@, output_size, result_f32.data@));
    r
}

/// 2D adaptive average pooling for f32: pooled as a 3D input with a unit depth axis.
pub fn adaptive_avg_pool2d_f32<T: Copy, A: Fn(T, T) -> T, D: Fn(T, usize) -> T>(
    x: HostTensor<T>,
    output_size: [usize; 2],
    zero: T,
    add_fn: &A,
    div_fn: &D,
) -> (r: HostTensor<T>)
    requires
        x.wf(),
        x.shape@.len() == 4,
        adaptive3d_ok(shape_2d_as_3d(x.shape@), [1usize, output_size[0], output_size[1]]),
        forall|a: T, b: T| call_requires(*add_fn, (a, b)),
        forall|a: T, n: usize| call_requires(*div_fn, (a, n)),
    ensures
        r.shape@ == seq![x.shape[0], x.shape[1], output_size[0], output_size[1]],
        r.dtype == DType::F32,
        r.wf(),
        adaptive_pool_result(*add_fn, *div_fn, zero, x.data@, shape_2d_as_3d(x.shape@), [1usize, output_size[0], output_size[1]], r.data@),
{
    proof {
        lemma_wf_2d_as_3d(x.shape@);
    }
    let x_3d = expand_2d_to_3d(x);
    let result = adaptive_avg_pool3d_f32(x_3d, [1, output_size[0], output_size[1]], zero, add_fn, div_fn);
    proof {
        lemma_wf_squeeze_2d(result.shape@);
    }
    squeeze_3d_to_2d(result)
}

/// 2D adaptive average pooling for f64: pooled as a 3D input with a unit depth axis.
pub fn adaptive_avg_pool2d_f64<T: Copy, A: Fn(T, T) -> T, D: Fn(T, usize) -> T>(
    x: HostTensor<T>,
    output_size: [usize; 2],
    zero: T,
    add_fn: &A,
    div_fn: &D,
) -> (r: HostTensor<T>)
    requires
        x.wf(),
        x.shape@.len() == 4,
        adaptive3d_ok(shape_2d_as_3d(x.shape@), [1usize, output_size[0], output_size[1]]),
        forall|a: T, b: T| call_requires(*add_fn, (a, b)),
        forall|a: T, n: usize| call_requires(*div_fn, (a, n)),
    ensures
        r.shape@ == seq![x.shape[0], x.shape[1], output_size[0], output_size[1]],
        r.dtype == DType::F64,
        r.wf(),
        adaptive_pool_result(*add_fn, *div_fn, zero, x.data@, shape_2d_as_3d(x.shape@), [1usize, output_size[0], output_size[1]], r.data@),
{
    proof {
        lemma_wf_2d_as_3d(x.shape@);
    }
    let x_3d = expand_2d_to_3d(x);
    let result = adaptive_avg_pool3d_f64(x_3d, [1, output_size[0], output_size[1]], zero, add_fn, div_fn);
    proof {
        lemma_wf_squeeze_2d(result.shape@);
    }
    squeeze_3d_to_2d(result)
}

/// 2D adaptive average pooling for f16: pooled as a 3D input with a unit depth axis.
pub fn adaptive_avg_pool2d_f16<T: Copy, A: Fn(T, T) -> T, D: Fn(T, usize) -> T>(
    x: HostTensor<T>,
    output_size: [usize; 2],
    zero: T,
    add_fn: &A,
    div_fn: &D,
) -> (r: HostTensor<T>)
    requires
        x.wf(),
        x.shape@.len() == 4,
        adaptive3d_ok(shape_2d_as_3d(x.shape@), [1usize, output_size[0], output_size[1]]),
        forall|a: T, b: T| call_requires(*add_fn, (a, b)),
        forall|a: T, n: usize| call_requires(*div_fn, (a, n)),
    ensures
        r.shape@ == seq![x.shape[0], x.shape[1], output_size[0], output_size[1]],
        r.dtype == DType::F16,
        r.wf(),
        adaptive_pool_result(*add_fn, *div_fn, zero, x.data@, shape_2d_as_3d(x.shape@), [1usize, output_size[0], output_size[1]], r.data@),
{
    proof {
        lemma_wf_2d_as_3d(x.shape@);
    }
    let x_3d = expand_2d_to_3d(x);
    let result = adaptive_avg_pool3d_f16(x_3d, [1, output_size[0], output_size[1]], zero, add_fn, div_fn);
    proof {
        lemma_wf_squeeze_2d(result.shape@);
    }
    squeeze_3d_to_2d(result)
}

/// 2D adaptive average pooling for bf16: pooled as a 3D input with a unit depth axis.
pub fn adaptive_avg_pool2d_bf16<S: Copy, T: Copy, A: Fn(T, T) -> T, D: Fn(T, usize) -> T, U: Fn(S) -> T, N: Fn(T) -> S>(
    x: HostTensor<S>,
    output_size: [usize; 2],
    zero: T,
    add_fn: &A,
    div_fn: &D,
    to_f32: &U,
    from_f32: &N,
) -> (r: HostTensor<S>)
    requires
        x.wf(),
        x.shape@.len() == 4,
        adaptive3d_ok(shape_2d_as_3d(x.shape@), [1usize, output_size[0], output_size[1]]),
        forall|a: T, b: T| call_requires(*add_fn, (a, b)),
        forall|a: T, n: usize| call_requires(*div_fn, (a, n)),
        forall|a: S| call_requires(*to_f32, (a,)),
        forall|a: T| call_requires(*from_f32, (a,)),
    ensures
        r.shape@ == seq![x.shape[0], x.shape[1], output_size[0], output_size[1]],
        r.dtype == DType::BF16,
        r.wf(),
        adaptive_pool_result_narrowed(*add_fn, *div_fn, zero, *to_f32, *from_f32, x.data@, shape_2d_as_3d(x.shape@), [1usize, output_size[0], output_size[1]], r.data@),
{
    proof {
        lemma_wf_2d_as_3d(x.shape@);
    }
    let x_3d = expand_2d_to_3d(x);
    let result = adaptive_avg_pool3d_bf16(x_3d, [1, output_size[0], output_size[1]], zero, add_fn, div_fn, to_f32, from_f32);
    proof {
        lemma_wf_squeeze_2d(result.shape@);
    }
    squeeze_3d_to_2d(result)
}

/// 1D adaptive average pooling for f32: pooled as a 3D input with unit
/// depth and height axes.
pub fn adaptive_avg_pool1d_f32<T: Copy, A: Fn(T, T) -> T, D: Fn(T, usize) -> T>(
    x: HostTensor<T>,
    output_size: usize,
    zero: T,
    add_fn: &A,
    div_fn: &D,
) -> (r: HostTensor<T>)
    requires
        x.wf(),
        x.shape@.len() == 3,
        adaptive3d_ok(shape_1d_as_3d(x.shape@), [1usize, 1, output_size]),
        forall|a: T, b: T| call_requires(*add_fn, (a, b)),
        forall|a: T, n: usize| call_requires(*div_fn, (a, n)),
    ensures
        r.shape@ == seq![x.shape[0], x.shape[1], output_size],
        r.dtype == DType::F32,
        r.wf(),
        adaptive_pool_result(*add_fn, *div_fn, zero, x.data@, shape_1d_as_3d(x.shape@), [1usize, 1, output_size], r.data@),
{
    proof {
        lemma_wf_1d_as_3d(x.shape@);
    }
    let x_3d = expand_1d_to_3d(x);
    let result = adaptive_avg_pool3d_f32(x_3d, [1, 1, output_size], zero, add_fn, div_fn);
    proof {
        lemma_wf_squeeze_1d(result.shape@);
    }
    squeeze_3d_to_1d(result)
}


/// Whether a division by a count gives at most one value for each pair.
pub open spec fn div_deterministic<T, D: Fn(T, usize) -> T>(div_fn: D) -> bool {
    forall|a: T, n: usize, r1: T, r2: T| call_ensures(div_fn, (a, n), r1) && call_ensures(div_fn, (a, n), r2) ==> r1 == r2
}

/// Along an axis of `out * k` inputs, adaptive window `o` of `out` is the
/// block `[o * k, (o + 1) * k)`.
proof fn lemma_adaptive_axis_divisible(o: int, out: int, k: int)
    requires
        0 <= o < out,
        k >= 1,
    ensures
        adaptive_start(o, out * k, out) == o * k,
        adaptive_end(o, out * k, out) == (o + 1) * k,
        pool_out_len(out * k, k, 0, k, 1, false) == out,
{
    assert(o * (out * k) == (o * k) * out) by (nonlinear_arith);
    lemma_div_mod_offset(o * k, 0, out);
    assert((o + 1) * (out * k) == ((o + 1) * k) * out) by (nonlinear_arith);
    lemma_div_mod_offset((o + 1) * k, 0, out);
    assert(out * k + 2 * 0 - (1 * (k - 1) + 1) == (out - 1) * k) by (nonlinear_arith);
    lemma_div_mod_offset(out - 1, 0, k);
    assert(o * k >= 0) by (nonlinear_arith)
        requires o >= 0, k >= 1;
    assert((o + 1) * k >= 0) by (nonlinear_arith)
        requires o >= 0, k >= 1;
}

/// Adaptive average pooling to an output size that divides the input is
/// average pooling with kernel and stride `input / output`, no padding:
/// with deterministic addition and division the two give the same elements.
pub proof fn lemma_adaptive_is_avg_when_divisible<T, A: Fn(T, T) -> T, D: Fn(T, usize) -> T>(
    add_fn: A,
    div_fn: D,
    zero: T,
    x: Seq<T>,
    shape: Seq<usize>,
    out: [usize; 3],
    kernel: [usize; 3],
    res_adaptive: Seq<T>,
    res_avg: Seq<T>,
)
    requires
        op_deterministic(add_fn),
        div_deterministic(div_fn),
        shape.len() == 5,
        out[0] > 0 && out[1] > 0 && out[2] > 0,
        kernel[0] > 0 && kernel[1] > 0 && kernel[2] > 0,
        shape[2] == out[0] * kernel[0],
        shape[3] == out[1] * kernel[1],
        shape[4] == out[2] * kernel[2],
        adaptive_pool_result(add_fn, div_fn, zero, x, shape, out, res_adaptive),
        avg_pool_result(add_fn, div_fn, zero, x, shape, kernel, kernel, [0usize, 0, 0], false, false, res_avg),
        res_adaptive.len() == res_avg.len(),
    ensures
        res_adaptive == res_avg,
{
    let sd = spatial_dims(shape);
    let pad = [0usize, 0, 0];
    lemma_adaptive_axis_divisible(0, out[0] as int, kernel[0] as int);
    lemma_adaptive_axis_divisible(0, out[1] as int, kernel[1] as int);
    lemma_adaptive_axis_divisible(0, out[2] as int, kernel[2] as int);
    let o = pool3d_out_dims(sd, kernel, kernel, pad, [1usize, 1, 1], false);
    assert(o == (out[0] as int, out[1] as int, out[2] as int));
    assert forall|i: int| 0 <= i < res_adaptive.len() implies #[trigger] res_adaptive[i] == res_avg[i] by {
        assert(adaptive_pool_value(add_fn, div_fn, zero, x, shape, out, i, res_adaptive[i]));
        assert(avg_pool_value(add_fn, div_fn, zero, x, shape, kernel, kernel, pad, false, o, i, res_avg[i]));
        let pos = unflatten4(i, out[0] as int, out[1] as int, out[2] as int);
        let base = pos.0 * (shape[2] * shape[3] * shape[4]);
        let wp = (pos.1, pos.2, pos.3);
        lemma_mod_bound(i / (out[2] as int) / (out[1] as int), out[0] as int);
        lemma_mod_bound(i / (out[2] as int), out[1] as int);
        lemma_mod_bound(i, out[2] as int);
        lemma_adaptive_axis_divisible(wp.0, out[0] as int, kernel[0] as int);
        lemma_adaptive_axis_divisible(wp.1, out[1] as int, kernel[1] as int);
        lemma_adaptive_axis_divisible(wp.2, out[2] as int, kernel[2] as int);
        let vol = kernel[0] * kernel[1] * kernel[2];
        assert((wp.0 + 1) * kernel[0] - wp.0 * kernel[0] == kernel[0]) by (nonlinear_arith);
        assert((wp.1 + 1) * kernel[1] - wp.1 * kernel[1] == kernel[1]) by (nonlinear_arith);
        assert((wp.2 + 1) * kernel[2] - wp.2 * kernel[2] == kernel[2]) by (nonlinear_arith);
        assert(adaptive_window_volume(sd, out, wp) == vol);
        assert(vol >= 1) by (nonlinear_arith)
            requires kernel[0] > 0, kernel[1] > 0, kernel[2] > 0, vol == kernel[0] * kernel[1] * kernel[2];
        let sa = adaptive_window_steps(x, base, sd, out, wp);
        let sb = avg_window_steps(x, base, sd, kernel, kernel, pad, wp);
        let inside = avg_window_inside(sd, kernel, kernel, pad, wp);
        assert forall|q: int| 0 <= q < vol implies #[trigger] sb[q] == sa[q] && avg_window_tap(sd, kernel, kernel, pad, wp, q).1 is Some by {
            assert(vol == (kernel[0] * kernel[1]) * kernel[2]);
            crate::arith::lemma_div_lt(q, kernel[0] * kernel[1], kernel[2] as int);
            crate::arith::lemma_div_lt(q / (kernel[2] as int), kernel[0] as int, kernel[1] as int);
            let kp = unflatten3(q, kernel[1] as int, kernel[2] as int);
            assert(0 <= wp.0 * kernel[0] + kp.0 < out[0] * kernel[0]) by (nonlinear_arith)
                requires 0 <= wp.0 < out[0], 0 <= kp.0 < kernel[0];
            assert(0 <= wp.1 * kernel[1] + kp.1 < out[1] * kernel[1]) by (nonlinear_arith)
                requires 0 <= wp.1 < out[1], 0 <= kp.1 < kernel[1];
            assert(0 <= wp.2 * kernel[2] + kp.2 < out[2] * kernel[2]) by (nonlinear_arith)
                requires 0 <= wp.2 < out[2], 0 <= kp.2 < kernel[2];
            assert(avg_window_tap(sd, kernel, kernel, pad, wp, q).1 == Option::Some(
                adaptive_window_offset(sd, out, wp, q),
            ));
        }
        assert(sa =~= sb);
        assert forall|q: int| 0 <= q < inside.len() implies #[trigger] inside[q] by {
            assert(sb[q] == sa[q]);
        }
        lemma_count_true_all(inside);
        assert(avg_divisor(sd, kernel, kernel, pad, wp, false) == vol);
        let sum_a = choose|sum: T| {
            &&& #[trigger] folds_to(add_fn, zero, adaptive_window_steps(x, base, sd, out, wp), sum)
            &&& call_ensures(div_fn, (sum, (if vol >= 1 { vol } else { 1 }) as usize), res_adaptive[i])
        };
        let sum_b = choose|sum: T| {
            &&& #[trigger] folds_to(add_fn, zero, avg_window_steps(x, base, sd, kernel, kernel, pad, wp), sum)
            &&& call_ensures(div_fn, (sum, avg_divisor(sd, kernel, kernel, pad, wp, false) as usize), res_avg[i])
        };
        lemma_folds_to_unique(add_fn, zero, sa, sum_a, sum_b);
    }
    assert(res_adaptive =~= res_avg);
}

} // verus!
