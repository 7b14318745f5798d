//! Max pooling, returning for every output the maximum and its position
//! inside the input plane.
use vstd::prelude::*;
use crate::tensor::{DType, HostTensor, shape_numel, lemma_numel_5, lemma_numel_4, lemma_numel_3};
use crate::fold::{max_step, max_trace, max_scans_to, lemma_max_trace_push, lemma_max_trace_origin, gt_deterministic, lemma_max_scans_to_unique};
use crate::arith::lemma_offset2;
use super::{
    shape_2d_as_3d, shape_1d_as_3d, lift2, lift1, converted, convert_bf16_to_f32, convert_f32_to_bf16,
    expand_2d_to_3d, squeeze_3d_to_2d, expand_1d_to_3d, squeeze_3d_to_1d,
    pool_tap, unflatten3, unflatten4, offset3, pool_out_len, pool_axis_ok, pool_output_size,
    tap_index, unflatten3_exec, unflatten4_exec, offset3_exec,
};

verus! {

/// Offset inside one `[in_d, in_h, in_w]` input plane read by flattened
/// kernel tap `q` of output position `pos`, or `None` when the tap lies in
/// the padding.
pub open spec fn max_window_tap(
    in_dims: [usize; 3],
    kernel: [usize; 3],
    stride: [usize; 3],
    padding: [usize; 3],
    dilation: [usize; 3],
    pos: (int, int, int),
    q: int,
) -> Option<int> {
    let kp = unflatten3(q, kernel[1] as int, kernel[2] as int);
    let id = pool_tap(pos.0, kp.0, stride[0] as int, dilation[0] as int, padding[0] as int);
    let ih = pool_tap(pos.1, kp.1, stride[1] as int, dilation[1] as int, padding[1] as int);
    let iw = pool_tap(pos.2, kp.2, stride[2] as int, dilation[2] as int, padding[2] as int);
    if 0 <= id < in_dims[0] && 0 <= ih < in_dims[1] && 0 <= iw < in_dims[2] {
        Option::Some(offset3(id, ih, iw, in_dims[1] as int, in_dims[2] as int))
    } else {
        Option::None
    }
}

/// The candidates a max-pooling window visits, in kernel order
/// (depth, then height, then width): the value at each in-range tap and its
/// offset in the plane whose elements start at `base`.
pub open spec fn max_window_steps<T>(
    x: Seq<T>,
    base: int,
    in_dims: [usize; 3],
    kernel: [usize; 3],
    stride: [usize; 3],
    padding: [usize; 3],
    dilation: [usize; 3],
    pos: (int, int, int),
) -> Seq<Option<(T, i64)>> {
    Seq::new(
        (kernel[0] * kernel[1] * kernel[2]) as nat,
        |q: int|
            match max_window_tap(in_dims, kernel, stride, padding, dilation, pos, q) {
                Option::Some(l) => Option::Some((x[base + l], l as i64)),
                Option::None => Option::None,
            },
    )
}

/// The output extents of a 3D pooling of input extents `in_dims`.
pub open spec fn pool3d_out_dims(
    in_dims: [usize; 3],
    kernel: [usize; 3],
    stride: [usize; 3],
    padding: [usize; 3],
    dilation: [usize; 3],
    ceil_mode: bool,
) -> (int, int, int) {
    (
        pool_out_len(in_dims[0] as int, kernel[0] as int, padding[0] as int, stride[0] as int, dilation[0] as int, ceil_mode),
        pool_out_len(in_dims[1] as int, kernel[1] as int, padding[1] as int, stride[1] as int, dilation[1] as int, ceil_mode),
        pool_out_len(in_dims[2] as int, kernel[2] as int, padding[2] as int, stride[2] as int, dilation[2] as int, ceil_mode),
    )
}

pub open spec fn spatial_dims(shape: Seq<usize>) -> [usize; 3] {
    [shape[2], shape[3], shape[4]]
}

/// The arguments on which 3D pooling of a `[batch, channels, d, h, w]`
/// tensor is defined: every axis has a positive kernel and stride, and the
/// padded extents, the plane sizes and the output sizes fit the index types.
pub open spec fn pool3d_ok(
    shape: Seq<usize>,
    kernel: [usize; 3],
    stride: [usize; 3],
    padding: [usize; 3],
    dilation: [usize; 3],
    ceil_mode: bool,
) -> bool {
    let o = pool3d_out_dims(spatial_dims(shape), kernel, stride, padding, dilation, ceil_mode);
    &&& shape.len() == 5
    &&& pool_axis_ok(shape[2] as int, kernel[0] as int, padding[0] as int, stride[0] as int, dilation[0] as int)
    &&& pool_axis_ok(shape[3] as int, kernel[1] as int, padding[1] as int, stride[1] as int, dilation[1] as int)
    &&& pool_axis_ok(shape[4] as int, kernel[2] as int, padding[2] as int, stride[2] as int, dilation[2] as int)
    &&& kernel[0] * kernel[1] * kernel[2] <= usize::MAX
    &&& shape[0] * shape[1] <= usize::MAX
    &&& shape[2] * shape[3] * shape[4] <= i64::MAX
    &&& shape[2] * shape[3] * shape[4] <= usize::MAX
    &&& o.0 * o.1 * o.2 <= usize::MAX
    &&& shape[0] * shape[1] * (o.0 * o.1 * o.2) <= usize::MAX
}

/// Scans one pooling window for its maximum and that maximum's position.
fn max_window<T: Copy, G: Fn(T, T) -> bool>(
    x: &Vec<T>,
    base: usize,
    in_dims: [usize; 3],
    kernel: [usize; 3],
    stride: [usize; 3],
    padding: [usize; 3],
    dilation: [usize; 3],
    pos: [usize; 3],
    neg_inf: T,
    gt: &G,
) -> (r: (T, i64))
    requires
        base + in_dims[0] * in_dims[1] * in_dims[2] <= x.len(),
        in_dims[0] * in_dims[1] * in_dims[2] <= i64::MAX,
        kernel[1] > 0,
        kernel[2] > 0,
        kernel[0] * kernel[1] * kernel[2] <= usize::MAX,
        padding[0] + in_dims[0] <= usize::MAX,
        padding[1] + in_dims[1] <= usize::MAX,
        padding[2] + in_dims[2] <= usize::MAX,
        forall|a: T, b: T| call_requires(*gt, (a, b)),
    ensures
        max_scans_to(
            *gt,
            (neg_inf, -1i64),
            max_window_steps(
                x@,
                base as int,
                in_dims,
                kernel,
                stride,
                padding,
                dilation,
                (pos[0] as int, pos[1] as int, pos[2] as int),
            ),
            r,
        ),
{
    let ghost steps = max_window_steps(
        x@,
        base as int,
        in_dims,
        kernel,
        stride,
        padding,
        dilation,
        (pos[0] as int, pos[1] as int, pos[2] as int),
    );
    assert(kernel[0] * kernel[1] <= kernel[0] * kernel[1] * kernel[2]) by (nonlinear_arith)
        requires kernel[2] >= 1, kernel[0] * kernel[1] >= 0;
    let kvol = kernel[0] * kernel[1] * kernel[2];
    let mut max_val = neg_inf;
    let mut max_idx: i64 = -1;
    let ghost mut trace: Seq<(T, i64)> = seq![(neg_inf, -1i64)];
    let mut q: usize = 0;
    assert(steps.take(0) =~= Seq::<Option<(T, i64)>>::empty());
    while q < kvol
        invariant
            kvol == kernel[0] * kernel[1] * kernel[2],
            q <= kvol,
            steps.len() == kvol,
            base + in_dims[0] * in_dims[1] * in_dims[2] <= x.len(),
            in_dims[0] * in_dims[1] * in_dims[2] <= i64::MAX,
            kernel[1] > 0,
            kernel[2] > 0,
            padding[0] + in_dims[0] <= usize::MAX,
            padding[1] + in_dims[1] <= usize::MAX,
            padding[2] + in_dims[2] <= usize::MAX,
            forall|a: T, b: T| call_requires(*gt, (a, b)),
            steps == max_window_steps(
                x@,
                base as int,
                in_dims,
                kernel,
                stride,
                padding,
                dilation,
                (pos[0] as int, pos[1] as int, pos[2] as int),
            ),
            max_trace(*gt, (neg_inf, -1i64), steps.take(q as int), trace),
            trace.last() == (max_val, max_idx),
        decreases kvol - q,
    {
        let (a, b, c) = unflatten3_exec(q, kernel[0], kernel[1], kernel[2]);
        let ghost before = (max_val, max_idx);
        let id = tap_index(pos[0], a, stride[0], dilation[0], padding[0], in_dims[0]);
        let ih = tap_index(pos[1], b, stride[1], dilation[1], padding[1], in_dims[1]);
        let iw = tap_index(pos[2], c, stride[2], dilation[2], padding[2], in_dims[2]);
        match (id, ih, iw) {
            (Option::Some(id), Option::Some(ih), Option::Some(iw)) => {
                let local = offset3_exec(id, ih, iw, Ghost(in_dims[0] as int), in_dims[1], in_dims[2]);
                let val = x[base + local];
                let take = if max_idx < 0 {
                    true
                } else {
                    gt(val, max_val)
                };
                if take {
                    max_val = val;
                    max_idx = local as i64;
                }
                assert(steps[q as int] == Option::Some((val, local as i64)));
            },
            _ => {
                assert(steps[q as int] == Option::<(T, i64)>::None);
            },
        }
        proof {
            assert(max_step(*gt, before, steps[q as int], (max_val, max_idx)));
            lemma_max_trace_push(*gt, (neg_inf, -1i64), steps.take(q as int), trace, steps[q as int], (max_val, max_idx));
            assert(steps.take(q as int).push(steps[q as int]) =~= steps.take(q + 1));
            trace = trace.push((max_val, max_idx));
        }
        q += 1;
    }
    assert(steps.take(kvol as int) =~= steps);
    (max_val, max_idx)
}

/// The candidates visited for output element `i` of a max pooling whose
/// output extents are `out`.
pub open spec fn max_pool_out_steps<T>(
    x: Seq<T>,
    shape: Seq<usize>,
    kernel: [usize; 3],
    stride: [usize; 3],
    padding: [usize; 3],
    dilation: [usize; 3],
    out: (int, int, int),
    i: int,
) -> Seq<Option<(T, i64)>> {
    let pos = unflatten4(i, out.0, out.1, out.2);
    max_window_steps(
        x,
        pos.0 * (shape[2] * shape[3] * shape[4]),
        spatial_dims(shape),
        kernel,
        stride,
        padding,
        dilation,
        (pos.1, pos.2, pos.3),
    )
}

/// The position reported for output element `i` is `-1` exactly when its
/// window holds no input element, and otherwise is an offset inside the
/// element's input plane at which the input holds the reported maximum.
pub open spec fn max_index_consistent<T>(
    x: Seq<T>,
    shape: Seq<usize>,
    out: (int, int, int),
    i: int,
    val: T,
    idx: i64,
) -> bool {
    let plane = shape[2] * shape[3] * shape[4];
    let base = unflatten4(i, out.0, out.1, out.2).0 * plane;
    idx == -1 || (0 <= idx < plane && x[base + idx] == val)
}

/// A window scan reports position `-1` and the initial value exactly when
/// the window holds no input element; otherwise it reports a position inside
/// the plane together with the input element found there.
pub proof fn lemma_max_window_result<T, G: Fn(T, T) -> bool>(
    gt: G,
    neg_inf: T,
    x: Seq<T>,
    base: int,
    in_dims: [usize; 3],
    kernel: [usize; 3],
    stride: [usize; 3],
    padding: [usize; 3],
    dilation: [usize; 3],
    pos: (int, int, int),
    res: (T, i64),
)
    requires
        in_dims[0] * in_dims[1] * in_dims[2] <= i64::MAX,
        max_scans_to(gt, (neg_inf, -1i64), max_window_steps(x, base, in_dims, kernel, stride, padding, dilation, pos), res),
    ensures
        res.1 == -1 <==> (forall|q: int| 0 <= q < kernel[0] * kernel[1] * kernel[2]
            ==> #[trigger] max_window_tap(in_dims, kernel, stride, padding, dilation, pos, q) is None),
        res.1 == -1 ==> res.0 == neg_inf,
        res.1 != -1 ==> 0 <= res.1 < in_dims[0] * in_dims[1] * in_dims[2] && x[base + res.1] == res.0,
{
    let steps = max_window_steps(x, base, in_dims, kernel, stride, padding, dilation, pos);
    let trace = choose|t: Seq<(T, i64)>| #[trigger] max_trace(gt, (neg_inf, -1i64), steps, t) && t.last() == res;
    let n = steps.len() as int;
    assert forall|i: int| 0 <= i < steps.len() && (#[trigger] steps[i]) is Some implies (steps[i]->0).1 >= 0 by {
        let l = max_window_tap(in_dims, kernel, stride, padding, dilation, pos, i)->0;
        let kp = unflatten3(i, kernel[1] as int, kernel[2] as int);
        let id = pool_tap(pos.0, kp.0, stride[0] as int, dilation[0] as int, padding[0] as int);
        let ih = pool_tap(pos.1, kp.1, stride[1] as int, dilation[1] as int, padding[1] as int);
        let iw = pool_tap(pos.2, kp.2, stride[2] as int, dilation[2] as int, padding[2] as int);
        lemma_offset2(id, ih, in_dims[0] as int, in_dims[1] as int);
        lemma_offset2(id * in_dims[1] + ih, iw, in_dims[0] * in_dims[1], in_dims[2] as int);
    }
    lemma_max_trace_origin(gt, (neg_inf, -1i64), steps, trace, n);
    assert(trace[n] == trace.last());
    if res != (neg_inf, -1i64) {
        let i = choose|i: int| 0 <= i < n && #[trigger] steps[i] == Option::Some(trace[n]);
        let kp = unflatten3(i, kernel[1] as int, kernel[2] as int);
        let id = pool_tap(pos.0, kp.0, stride[0] as int, dilation[0] as int, padding[0] as int);
        let ih = pool_tap(pos.1, kp.1, stride[1] as int, dilation[1] as int, padding[1] as int);
        let iw = pool_tap(pos.2, kp.2, stride[2] as int, dilation[2] as int, padding[2] as int);
        lemma_offset2(id, ih, in_dims[0] as int, in_dims[1] as int);
        lemma_offset2(id * in_dims[1] + ih, iw, in_dims[0] * in_dims[1], in_dims[2] as int);
        assert(res.1 >= 0);
    } else {
        assert forall|q: int| 0 <= q < kernel[0] * kernel[1] * kernel[2]
            implies #[trigger] max_window_tap(in_dims, kernel, stride, padding, dilation, pos, q) is None by {
            assert(steps[q] is None);
        }
    }
    if res.1 == -1 {
        if res != (neg_inf, -1i64) {
            assert(false);
        }
    }
}

/// Generic 3D max pooling with indices implementation.
///
/// For each output element the window's in-range taps are visited in kernel
/// order; the first one is taken and a later one replaces the running
/// maximum when `gt(candidate, maximum)` holds. The reported index is the
/// candidate's offset inside its `[d, h, w]` input plane, or `-1` (with
/// `neg_inf` as value) when the window lies entirely in the padding.
pub fn max_pool3d_with_indices_impl<T: Copy, G: Fn(T, T) -> bool>(
    x: HostTensor<T>,
    kernel_size: [usize; 3],
    stride: [usize; 3],
    padding: [usize; 3],
    dilation: [usize; 3],
    ceil_mode: bool,
    dtype: DType,
    neg_inf: T,
    gt: &G,
) -> (r: (HostTensor<T>, HostTensor<i64>))
    requires
        x.wf(),
        pool3d_ok(x.shape@, kernel_size, stride, padding, dilation, ceil_mode),
        forall|a: T, b: T| call_requires(*gt, (a, b)),
    ensures
        ({
            let o = pool3d_out_dims(spatial_dims(x.shape@), kernel_size, stride, padding, dilation, ceil_mode);
            &&& r.0.shape@ == seq![x.shape[0], x.shape[1], o.0 as usize, o.1 as usize, o.2 as usize]
            &&& r.1.shape@ == r.0.shape@
            &&& r.0.dtype == dtype
            &&& r.1.dtype == DType::I64
            &&& r.0.wf()
            &&& r.1.wf()
            &&& forall|i: int| 0 <= i < r.0.data.len() ==> max_scans_to(
                *gt,
                (neg_inf, -1i64),
                #[trigger] max_pool_out_steps(x.data@, x.shape@, kernel_size, stride, padding, dilation, o, i),
                (r.0.data[i], r.1.data[i]),
            )
            &&& forall|i: int| 0 <= i < r.0.data.len() ==> #[trigger] max_index_consistent(
                x.data@, x.shape@, o, i, r.0.data[i], r.1.data[i])
        }),
{
    let ghost o3 = pool3d_out_dims(spatial_dims(x.shape@), kernel_size, stride, padding, dilation, ceil_mode);
    proof {
        lemma_numel_5(x.shape@);
    }
    let batch_size = x.shape[0];
    let channels = x.shape[1];
    let in_d = x.shape[2];
    let in_h = x.shape[3];
    let in_w = x.shape[4];

    let out_d = pool_output_size(in_d, kernel_size[0], padding[0], stride[0], dilation[0], ceil_mode);
    let out_h = pool_output_size(in_h, kernel_size[1], padding[1], stride[1], dilation[1], ceil_mode);
    let out_w = pool_output_size(in_w, kernel_size[2], padding[2], stride[2], dilation[2], ceil_mode);

    assert(out_d * out_h <= out_d * out_h * out_w || out_w == 0) by (nonlinear_arith)
        requires out_w >= 0, out_d * out_h >= 0;
    assert(in_d * in_h <= in_d * in_h * in_w || in_w == 0) by (nonlinear_arith)
        requires in_w >= 0, in_d * in_h >= 0;
    assert(in_d * in_h * in_w <= usize::MAX);
    assert(out_d * out_h * out_w <= usize::MAX);
    let bc_total = batch_size * channels;
    let in_spatial = if in_w == 0 { 0 } else { in_d * in_h * in_w };
    assert(in_w == 0 ==> in_d * in_h * in_w == 0) by (nonlinear_arith);
    assert(out_w == 0 ==> out_d * out_h * out_w == 0) by (nonlinear_arith);
    assert(in_spatial == in_d * in_h * in_w);
    let spatial_out = if out_w == 0 { 0 } else { out_d * out_h * out_w };
    assert(spatial_out == out_d * out_h * out_w);
    let total = bc_total * spatial_out;
    assert(x.data.len() == bc_total * in_spatial) by (nonlinear_arith)
        requires
            x.data.len() == batch_size * channels * in_d * in_h * in_w,
            bc_total == batch_size * channels,
            in_spatial == in_d * in_h * in_w;
    assert(total == bc_total * out_d * out_h * out_w) by (nonlinear_arith)
        requires total == bc_total * spatial_out, spatial_out == out_d * out_h * out_w;

    let mut output: Vec<T> = Vec::new();
    let mut indices: Vec<i64> = Vec::new();
    let mut i: usize = 0;
    while i < total
        invariant
            i <= total,
            output.len() == i,
            indices.len() == i,
            total == bc_total * out_d * out_h * out_w,
            x.data.len() == bc_total * in_spatial,
            in_spatial == in_d * in_h * in_w,
            in_spatial <= i64::MAX,
            x.shape@.len() == 5,
            in_d == x.shape[2],
            in_h == x.shape[3],
            in_w == x.shape[4],
            o3 == (out_d as int, out_h as int, out_w as int),
            kernel_size[1] > 0,
            kernel_size[2] > 0,
            kernel_size[0] * kernel_size[1] * kernel_size[2] <= usize::MAX,
            padding[0] + in_d <= usize::MAX,
            padding[1] + in_h <= usize::MAX,
            padding[2] + in_w <= usize::MAX,
            forall|a: T, b: T| call_requires(*gt, (a, b)),
            forall|j: int| 0 <= j < i ==> max_scans_to(
                *gt,
                (neg_inf, -1i64),
                #[trigger] max_pool_out_steps(x.data@, x.shape@, kernel_size, stride, padding, dilation, o3, j),
                (output[j], indices[j]),
            ),
            forall|j: int| 0 <= j < i ==> #[trigger] max_index_consistent(
                x.data@, x.shape@, o3, j, output[j], indices[j]),
        decreases total - i,
    {
        assert(out_d > 0 && out_h > 0 && out_w > 0) by (nonlinear_arith)
            requires i < total, total == bc_total * out_d * out_h * out_w;
        let (bc, od, oh, ow) = unflatten4_exec(i, Ghost(bc_total as int), out_d, out_h, out_w);
        proof {
            assert((bc + 1) * in_spatial <= bc_total * in_spatial) by (nonlinear_arith)
                requires bc + 1 <= bc_total, in_spatial >= 0;
            assert((bc + 1) * in_spatial == bc * in_spatial + in_spatial) by (nonlinear_arith);
        }
        let base = bc * in_spatial;
        let (val, idx) = max_window(
            &x.data,
            base,
            [in_d, in_h, in_w],
            kernel_size,
            stride,
            padding,
            dilation,
            [od, oh, ow],
            neg_inf,
            gt,
        );
        proof {
            assert([in_d, in_h, in_w] =~= spatial_dims(x.shape@));
            lemma_max_window_result(
                *gt, neg_inf, x.data@, base as int, [in_d, in_h, in_w], kernel_size, stride,
                padding, dilation, (od as int, oh as int, ow as int), (val, idx));
        }
        output.push(val);
        indices.push(idx);
        proof {
            assert(max_scans_to(
                *gt,
                (neg_inf, -1i64),
                max_pool_out_steps(x.data@, x.shape@, kernel_size, stride, padding, dilation, o3, i as int),
                (output[i as int], indices[i as int]),
            ));
            assert(max_index_consistent(x.data@, x.shape@, o3, i as int, output[i as int], indices[i as int]));
        }
        i += 1;
    }
    let out_shape = vec![batch_size, channels, out_d, out_h, out_w];
    let idx_shape = vec![batch_size, channels, out_d, out_h, out_w];
    proof {
        lemma_numel_5(out_shape@);
        lemma_numel_5(idx_shape@);
        assert(total == batch_size * channels * out_d * out_h * out_w) by (nonlinear_arith)
            requires total == bc_total * out_d * out_h * out_w, bc_total == batch_size * channels;
    }
    let output_tensor = HostTensor::new(output, out_shape, dtype);
    let indices_tensor = HostTensor::new(indices, idx_shape, DType::I64);
    (output_tensor, indices_tensor)
}

/// Output shape `[N, C, d, h, w]` of a 3D pooling of a tensor of shape `shape`.
pub open spec fn pool3d_out_shape(
    shape: Seq<usize>,
    kernel: [usize; 3],
    stride: [usize; 3],
    padding: [usize; 3],
    dilation: [usize; 3],
    ceil_mode: bool,
) -> Seq<usize> {
    let o = pool3d_out_dims(spatial_dims(shape), kernel, stride, padding, dilation, ceil_mode);
    seq![shape[0], shape[1], o.0 as usize, o.1 as usize, o.2 as usize]
}

/// `out` and `idx` are what max pooling of `x` (of shape `shape`) yields: for
/// every output element, a scan of its window and a consistent position.
pub open spec fn max_pool_result<T, G: Fn(T, T) -> bool>(
    gt: G,
    neg_inf: T,
    x: Seq<T>,
    shape: Seq<usize>,
    kernel: [usize; 3],
    stride: [usize; 3],
    padding: [usize; 3],
    dilation: [usize; 3],
    ceil_mode: bool,
    out: Seq<T>,
    idx: Seq<i64>,
) -> bool {
    let o = pool3d_out_dims(spatial_dims(shape), kernel, stride, padding, dilation, ceil_mode);
    &&& out.len() == idx.len()
    &&& forall|i: int| 0 <= i < out.len() ==> max_scans_to(
        gt,
        (neg_inf, -1i64),
        #[trigger] max_pool_out_steps(x, shape, kernel, stride, padding, dilation, o, i),
        (out[i], idx[i]),
    )
    &&& forall|i: int| 0 <= i < out.len() ==> #[trigger] max_index_consistent(x, shape, o, i, out[i], idx[i])
}

/// The bf16 variant: what max pooling of the widened input yields, narrowed.
pub open spec fn max_pool_result_narrowed<S, T, G: Fn(T, T) -> bool, U: Fn(S) -> T, D: Fn(T) -> S>(
    gt: G,
    neg_inf: T,
    to_f32: U,
    from_f32: D,
    x: Seq<S>,
    shape: Seq<usize>,
    kernel: [usize; 3],
    stride: [usize; 3],
    padding: [usize; 3],
    dilation: [usize; 3],
    ceil_mode: bool,
    out: Seq<S>,
    idx: Seq<i64>,
) -> bool {
    exists|wide: Seq<T>, wide_out: Seq<T>| {
        &&& converted(to_f32, x, wide)
        &&& #[trigger] max_pool_result(gt, neg_inf, wide, shape, kernel, stride, padding, dilation, ceil_mode, wide_out, idx)
        &&& converted(from_f32, wide_out, out)
    }
}

/// The `[N, C, H, W]` shape left when the unit depth axis is dropped.
pub open spec fn squeeze_shape_2d(s: Seq<usize>) -> Seq<usize> {
    seq![s[0], s[1], s[3], s[4]]
}

/// The `[N, C, L]` shape left when the unit depth and height axes are dropped.
pub open spec fn squeeze_shape_1d(s: Seq<usize>) -> Seq<usize> {
    seq![s[0], s[1], s[4]]
}

/// A 2D shape is well formed exactly when its unit-depth 3D form is.
pub proof fn lemma_wf_2d_as_3d(s: Seq<usize>)
    requires
        s.len() == 4,
    ensures
        shape_numel(shape_2d_as_3d(s)) == shape_numel(s),
{
    lemma_numel_5(shape_2d_as_3d(s));
    lemma_numel_4(s);
    assert(s[0] * s[1] * 1 * s[2] * s[3] == s[0] * s[1] * s[2] * s[3]) by (nonlinear_arith);
}

/// A 1D shape is well formed exactly when its unit-depth, unit-height 3D form is.
pub proof fn lemma_wf_1d_as_3d(s: Seq<usize>)
    requires
        s.len() == 3,
    ensures
        shape_numel(shape_1d_as_3d(s)) == shape_numel(s),
{
    lemma_numel_5(shape_1d_as_3d(s));
    lemma_numel_3(s);
    assert(s[0] * s[1] * 1 * 1 * s[2] == s[0] * s[1] * s[2]) by (nonlinear_arith);
}

/// Dropping a unit depth axis keeps the element count.
pub proof fn lemma_wf_squeeze_2d(s: Seq<usize>)
    requires
        s.len() == 5,
        s[2] == 1,
    ensures
        shape_numel(seq![s[0], s[1], s[3], s[4]]) == shape_numel(s),
{
    lemma_numel_5(s);
    lemma_numel_4(seq![s[0], s[1], s[3], s[4]]);
    assert(s[0] * s[1] * 1 * s[3] * s[4] == s[0] * s[1] * s[3] * s[4]) by (nonlinear_arith);
}

/// Dropping unit depth and height axes keeps the element count.
pub proof fn lemma_wf_squeeze_1d(s: Seq<usize>)
    requires
        s.len() == 5,
        s[2] == 1,
        s[3] == 1,
    ensures
        shape_numel(seq![s[0], s[1], s[4]]) == shape_numel(s),
{
    lemma_numel_5(s);
    lemma_numel_3(seq![s[0], s[1], s[4]]);
    assert(s[0] * s[1] * 1 * 1 * s[4] == s[0] * s[1] * s[4]) by (nonlinear_arith);
}

/// 3D max pooling with indices, tagged f32.
pub fn max_pool3d_with_indices_f32<T: Copy, G: Fn(T, T) -> bool>(
    x: HostTensor<T>,
    kernel_size: [usize; 3],
    stride: [usize; 3],
    padding: [usize; 3],
    dilation: [usize; 3],
    ceil_mode: bool,
    neg_inf: T,
    gt: &G,
) -> (r: (HostTensor<T>, HostTensor<i64>))
    requires
        x.wf(),
        pool3d_ok(x.shape@, kernel_size, stride, padding, dilation, ceil_mode),
        forall|a: T, b: T| call_requires(*gt, (a, b)),
    ensures
        r.0.shape@ == pool3d_out_shape(x.shape@, kernel_size, stride, padding, dilation, ceil_mode),
        r.1.shape@ == r.0.shape@,
        r.0.dtype == DType::F32,
        r.1.dtype == DType::I64,
        r.0.wf(),
        r.1.wf(),
        max_pool_result(*gt, neg_inf, x.data@, x.shape@, kernel_size, stride, padding, dilation, ceil_mode, r.0.data@, r.1.data@),
{
    let ghost xd = x.data@;
    let ghost xs = x.shape@;
    let r = max_pool3d_with_indices_impl(x, kernel_size, stride, padding, dilation, ceil_mode, DType::F32, neg_inf, gt);
    assert(max_pool_result(*gt, neg_inf, xd, xs, kernel_size, stride, padding, dilation, ceil_mode, r.0.data@, r.1.data@));
    r
}

/// 3D max pooling with indices, tagged f64.
pub fn max_pool3d_with_indices_f64<T: Copy, G: Fn(T, T) -> bool>(
    x: HostTensor<T>,
    kernel_size: [usize; 3],
    stride: [usize; 3],
    padding: [usize; 3],
    dilation: [usize; 3],
    ceil_mode: bool,
    neg_inf: T,
    gt: &G,
) -> (r: (HostTensor<T>, HostTensor<i64>))
    requires
        x.wf(),
        pool3d_ok(x.shape@, kernel_size, stride, padding, dilation, ceil_mode),
        forall|a: T, b: T| call_requires(*gt, (a, b)),
    ensures
        r.0.shape@ == pool3d_out_shape(x.shape@, kernel_size, stride, padding, dilation, ceil_mode),
        r.1.shape@ == r.0.shape@,
        r.0.dtype == DType::F64,
        r.1.dtype == DType::I64,
        r.0.wf(),
        r.1.wf(),
        max_pool_result(*gt, neg_inf, x.data@, x.shape@, kernel_size, stride, padding, dilation, ceil_mode, r.0.data@, r.1.data@),
{
    let ghost xd = x.data@;
    let ghost xs = x.shape@;
    let r = max_pool3d_with_indices_impl(x, kernel_size, stride, padding, dilation, ceil_mode, DType::F64, neg_inf, gt);
    assert(max_pool_result(*gt, neg_inf, xd, xs, kernel_size, stride, padding, dilation, ceil_mode, r.0.data@, r.1.data@));
    r
}

/// 3D max pooling with indices, tagged f16.
pub fn max_pool3d_with_indices_f16<T: Copy, G: Fn(T, T) -> bool>(
    x: HostTensor<T>,
    kernel_size: [usize; 3],
    stride: [usize; 3],
    padding: [usize; 3],
    dilation: [usize; 3],
    ceil_mode: bool,
    neg_inf: T,
    gt: &G,
) -> (r: (HostTensor<T>, HostTensor<i64>))
    requires
        x.wf(),
        pool3d_ok(x.shape@, kernel_size, stride, padding, dilation, ceil_mode),
        forall|a: T, b: T| call_requires(*gt, (a, b)),
    ensures
        r.0.shape@ == pool3d_out_shape(x.shape@, kernel_size, stride, padding, dilation, ceil_mode),
        r.1.shape@ == r.0.shape@,
        r.0.dtype == DType::F16,
        r.1.dtype == DType::I64,
        r.0.wf(),
        r.1.wf(),
        max_pool_result(*gt, neg_inf, x.data@, x.shape@, kernel_size, stride, padding, dilation, ceil_mode, r.0.data@, r.1.data@),
{
    let ghost xd = x.data@;
    let ghost xs = x.shape@;
    let r = max_pool3d_with_indices_impl(x, kernel_size, stride, padding, dilation, ceil_mode, DType::F16, neg_inf, gt);
    assert(max_pool_result(*gt, neg_inf, xd, xs, kernel_size, stride, padding, dilation, ceil_mode, r.0.data@, r.1.data@));
    r
}

/// 3D max pooling with indices for bf16: the input is widened with `to_f32`,
/// pooled as f32, and the maxima are narrowed back with `from_f32`.
pub fn max_pool3d_with_indices_bf16<S: Copy, T: Copy, G: Fn(T, T) -> bool, U: Fn(S) -> T, D: Fn(T) -> S>(
    x: HostTensor<S>,
    kernel_size: [usize; 3],
    stride: [usize; 3],
    padding: [usize; 3],
    dilation: [usize; 3],
    ceil_mode: bool,
    neg_inf: T,
    gt: &G,
    to_f32: &U,
    from_f32: &D,
) -> (r: (HostTensor<S>, HostTensor<i64>))
    requires
        x.wf(),
        pool3d_ok(x.shape@, kernel_size, stride, padding, dilation, ceil_mode),
        forall|a: T, b: T| call_requires(*gt, (a, b)),
        forall|a: S| call_requires(*to_f32, (a,)),
        forall|a: T| call_requires(*from_f32, (a,)),
    ensures
        r.0.shape@ == pool3d_out_shape(x.shape@, kernel_size, stride, padding, dilation, ceil_mode),
        r.1.shape@ == r.0.shape@,
        r.0.dtype == DType::BF16,
        r.1.dtype == DType::I64,
        r.0.wf(),
        r.1.wf(),
        max_pool_result_narrowed(*gt, neg_inf, *to_f32, *from_f32, x.data@, x.shape@, kernel_size, stride, padding, dilation, ceil_mode, r.0.data@, r.1.data@),
{
    let x_f32 = convert_bf16_to_f32(&x, to_f32);
    let (output_f32, indices) =
        max_pool3d_with_indices_f32(x_f32, kernel_size, stride, padding, dilation, ceil_mode, neg_inf, gt);
    let out = convert_f32_to_bf16(&output_f32, from_f32);
    assert(max_pool_result(*gt, neg_inf, x_f32.data@, x.shape@, kernel_size, stride, padding, dilation, ceil_mode, output_f32.data@, indices.data@));
    (out, indices)
}

/// 3D max pooling (without returning indices) for f32.
pub fn max_pool3d_f32<T: Copy, G: Fn(T, T) -> bool>(
    x: HostTensor<T>,
    kernel_size: [usize; 3],
    stride: [usize; 3],
    padding: [usize; 3],
    dilation: [usize; 3],
    ceil_mode: bool,
    neg_inf: T,
    gt: &G,
) -> (r: HostTensor<T>)
    requires
        x.wf(),
        pool3d_ok(x.shape@, kernel_size, stride, padding, dilation, ceil_mode),
        forall|a: T, b: T| call_requires(*gt, (a, b)),
    ensures
        r.shape@ == pool3d_out_shape(x.shape@, kernel_size, stride, padding, dilation, ceil_mode),
        r.dtype == DType::F32,
        r.wf(),
        exists|idx: Seq<i64>| #[trigger] max_pool_result(*gt, neg_inf, x.data@, x.shape@, kernel_size, stride, padding, dilation, ceil_mode, r.data@, idx),
{
    let r = max_pool3d_with_indices_f32(x, kernel_size, stride, padding, dilation, ceil_mode, neg_inf, gt);
    r.0
}

/// 3D max pooling (without returning indices) for f64.
pub fn max_pool3d_f64<T: Copy, G: Fn(T, T) -> bool>(
    x: HostTensor<T>,
    kernel_size: [usize; 3],
    stride: [usize; 3],
    padding: [usize; 3],
    dilation: [usize; 3],
    ceil_mode: bool,
    neg_inf: T,
    gt: &G,
) -> (r: HostTensor<T>)
    requires
        x.wf(),
        pool3d_ok(x.shape@, kernel_size, stride, padding, dilation, ceil_mode),
        forall|a: T, b: T| call_requires(*gt, (a, b)),
    ensures
        r.shape@ == pool3d_out_shape(x.shape@, kernel_size, stride, padding, dilation, ceil_mode),
        r.dtype == DType::F64,
        r.wf(),
        exists|idx: Seq<i64>| #[trigger] max_pool_result(*gt, neg_inf, x.data@, x.shape@, kernel_size, stride, padding, dilation, ceil_mode, r.data@, idx),
{
    let r = max_pool3d_with_indices_f64(x, kernel_size, stride, padding, dilation, ceil_mode, neg_inf, gt);
    r.0
}

/// 3D max pooling (without returning indices) for f16.
pub fn max_pool3d_f16<T: Copy, G: Fn(T, T) -> bool>(
    x: HostTensor<T>,
    kernel_size: [usize; 3],
    stride: [usize; 3],
    padding: [usize; 3],
    dilation: [usize; 3],
    ceil_mode: bool,
    neg_inf: T,
    gt: &G,
) -> (r: HostTensor<T>)
    requires
        x.wf(),
        pool3d_ok(x.shape@, kernel_size, stride, padding, dilation, ceil_mode),
        forall|a: T, b: T| call_requires(*gt, (a, b)),
    ensures
        r.shape@ == pool3d_out_shape(x.shape@, kernel_size, stride, padding, dilation, ceil_mode),
        r.dtype == DType::F16,
        r.wf(),
        exists|idx: Seq<i64>| #[trigger] max_pool_result(*gt, neg_inf, x.data@, x.shape@, kernel_size, stride, padding, dilation, ceil_mode, r.data@, idx),
{
    let r = max_pool3d_with_indices_f16(x, kernel_size, stride, padding, dilation, ceil_mode, neg_inf, gt);
    r.0
}

/// 3D max pooling (without returning indices) for bf16.
pub fn max_pool3d_bf16<S: Copy, T: Copy, G: Fn(T, T) -> bool, U: Fn(S) -> T, D: Fn(T) -> S>(
    x: HostTensor<S>,
    kernel_size: [usize; 3],
    stride: [usize; 3],
    padding: [usize; 3],
    dilation: [usize; 3],
    ceil_mode: bool,
    neg_inf: T,
    gt: &G,
    to_f32: &U,
    from_f32: &D,
) -> (r: HostTensor<S>)
    requires
        x.wf(),
        pool3d_ok(x.shape@, kernel_size, stride, padding, dilation, ceil_mode),
        forall|a: T, b: T| call_requires(*gt, (a, b)),
        forall|a: S| call_requires(*to_f32, (a,)),
        forall|a: T| call_requires(*from_f32, (a,)),
    ensures
        r.shape@ == pool3d_out_shape(x.shape@, kernel_size, stride, padding, dilation, ceil_mode),
        r.dtype == DType::BF16,
        r.wf(),
        exists|idx: Seq<i64>| #[trigger] max_pool_result_narrowed(*gt, neg_inf, *to_f32, *from_f32, x.data@, x.shape@, kernel_size, stride, padding, dilation, ceil_mode, r.data@, idx),
{
    let r = max_pool3d_with_indices_bf16(x, kernel_size, stride, padding, dilation, ceil_mode, neg_inf, gt, to_f32, from_f32);
    r.0
}

/// 2D max pooling with indices for f32: pooled as a 3D input with a unit depth axis.
pub fn max_pool2d_with_indices_f32<T: Copy, G: Fn(T, T) -> bool>(
    x: HostTensor<T>,
    kernel_size: [usize; 2],
    stride: [usize; 2],
    padding: [usize; 2],
    dilation: [usize; 2],
    ceil_mode: bool,
    neg_inf: T,
    gt: &G,
) -> (r: (HostTensor<T>, HostTensor<i64>))
    requires
        x.wf(),
        x.shape@.len() == 4,
        pool3d_ok(shape_2d_as_3d(x.shape@), lift2(kernel_size, 1), lift2(stride, 1), lift2(padding, 0), lift2(dilation, 1), ceil_mode),
        forall|a: T, b: T| call_requires(*gt, (a, b)),
    ensures
        r.0.shape@ == squeeze_shape_2d(pool3d_out_shape(shape_2d_as_3d(x.shape@), lift2(kernel_size, 1), lift2(stride, 1), lift2(padding, 0), lift2(dilation, 1), ceil_mode)),
        r.1.shape@ == r.0.shape@,
        r.0.dtype == DType::F32,
        r.1.dtype == DType::I64,
        r.0.wf(),
        r.1.wf(),
        max_pool_result(*gt, neg_inf, x.data@, shape_2d_as_3d(x.shape@), lift2(kernel_size, 1), lift2(stride, 1), lift2(padding, 0), lift2(dilation, 1), ceil_mode, r.0.data@, r.1.data@),
{
    proof {
        lemma_wf_2d_as_3d(x.shape@);
    }
    let x_3d = expand_2d_to_3d(x);
    let (output, indices) = max_pool3d_with_indices_f32(
        x_3d,
        [1, kernel_size[0], kernel_size[1]],
        [1, stride[0], stride[1]],
        [0, padding[0], padding[1]],
        [1, dilation[0], dilation[1]],
        ceil_mode,
        neg_inf,
        gt,
    );
    proof {
        lemma_wf_squeeze_2d(output.shape@);
    }
    (squeeze_3d_to_2d(output), squeeze_3d_to_2d(indices))
}

/// 2D max pooling with indices for f64: pooled as a 3D input with a unit depth axis.
pub fn max_pool2d_with_indices_f64<T: Copy, G: Fn(T, T) -> bool>(
    x: HostTensor<T>,
    kernel_size: [usize; 2],
    stride: [usize; 2],
    padding: [usize; 2],
    dilation: [usize; 2],
    ceil_mode: bool,
    neg_inf: T,
    gt: &G,
) -> (r: (HostTensor<T>, HostTensor<i64>))
    requires
        x.wf(),
        x.shape@.len() == 4,
        pool3d_ok(shape_2d_as_3d(x.shape@), lift2(kernel_size, 1), lift2(stride, 1), lift2(padding, 0), lift2(dilation, 1), ceil_mode),
        forall|a: T, b: T| call_requires(*gt, (a, b)),
    ensures
        r.0.shape@ == squeeze_shape_2d(pool3d_out_shape(shape_2d_as_3d(x.shape@), lift2(kernel_size, 1), lift2(stride, 1), lift2(padding, 0), lift2(dilation, 1), ceil_mode)),
        r.1.shape@ == r.0.shape@,
        r.0.dtype == DType::F64,
        r.1.dtype == DType::I64,
        r.0.wf(),
        r.1.wf(),
        max_pool_result(*gt, neg_inf, x.data@, shape_2d_as_3d(x.shape@), lift2(kernel_size, 1), lift2(stride, 1), lift2(padding, 0), lift2(dilation, 1), ceil_mode, r.0.data@, r.1.data@),
{
    proof {
        lemma_wf_2d_as_3d(x.shape@);
    }
    let x_3d = expand_2d_to_3d(x);
    let (output, indices) = max_pool3d_with_indices_f64(
        x_3d,
        [1, kernel_size[0], kernel_size[1]],
        [1, stride[0], stride[1]],
        [0, padding[0], padding[1]],
        [1, dilation[0], dilation[1]],
        ceil_mode,
        neg_inf,
        gt,
    );
    proof {
        lemma_wf_squeeze_2d(output.shape@);
    }
    (squeeze_3d_to_2d(output), squeeze_3d_to_2d(indices))
}

/// 2D max pooling with indices for f16: pooled as a 3D input with a unit depth axis.
pub fn max_pool2d_with_indices_f16<T: Copy, G: Fn(T, T) -> bool>(
    x: HostTensor<T>,
    kernel_size: [usize; 2],
    stride: [usize; 2],
    padding: [usize; 2],
    dilation: [usize; 2],
    ceil_mode: bool,
    neg_inf: T,
    gt: &G,
) -> (r: (HostTensor<T>, HostTensor<i64>))
    requires
        x.wf(),
        x.shape@.len() == 4,
        pool3d_ok(shape_2d_as_3d(x.shape@), lift2(kernel_size, 1), lift2(stride, 1), lift2(padding, 0), lift2(dilation, 1), ceil_mode),
        forall|a: T, b: T| call_requires(*gt, (a, b)),
    ensures
        r.0.shape@ == squeeze_shape_2d(pool3d_out_shape(shape_2d_as_3d(x.shape@), lift2(kernel_size, 1), lift2(stride, 1), lift2(padding, 0), lift2(dilation, 1), ceil_mode)),
        r.1.shape@ == r.0.shape@,
        r.0.dtype == DType::F16,
        r.1.dtype == DType::I64,
        r.0.wf(),
        r.1.wf(),
        max_pool_result(*gt, neg_inf, x.data@, shape_2d_as_3d(x.shape@), lift2(kernel_size, 1), lift2(stride, 1), lift2(padding, 0), lift2(dilation, 1), ceil_mode, r.0.data@, r.1.data@),
{
    proof {
        lemma_wf_2d_as_3d(x.shape@);
    }
    let x_3d = expand_2d_to_3d(x);
    let (output, indices) = max_pool3d_with_indices_f16(
        x_3d,
        [1, kernel_size[0], kernel_size[1]],
        [1, stride[0], stride[1]],
        [0, padding[0], padding[1]],
        [1, dilation[0], dilation[1]],
        ceil_mode,
        neg_inf,
        gt,
    );
    proof {
        lemma_wf_squeeze_2d(output.shape@);
    }
    (squeeze_3d_to_2d(output), squeeze_3d_to_2d(indices))
}

/// 2D max pooling with indices for bf16: pooled as a 3D input with a unit depth axis.
pub fn max_pool2d_with_indices_bf16<S: Copy, T: Copy, G: Fn(T, T) -> bool, U: Fn(S) -> T, D: Fn(T) -> S>(
    x: HostTensor<S>,
    kernel_size: [usize; 2],
    stride: [usize; 2],
    padding: [usize; 2],
    dilation: [usize; 2],
    ceil_mode: bool,
    neg_inf: T,
    gt: &G,
    to_f32: &U,
    from_f32: &D,
) -> (r: (HostTensor<S>, HostTensor<i64>))
    requires
        x.wf(),
        x.shape@.len() == 4,
        pool3d_ok(shape_2d_as_3d(x.shape@), lift2(kernel_size, 1), lift2(stride, 1), lift2(padding, 0), lift2(dilation, 1), ceil_mode),
        forall|a: T, b: T| call_requires(*gt, (a, b)),
        forall|a: S| call_requires(*to_f32, (a,)),
        forall|a: T| call_requires(*from_f32, (a,)),
    ensures
        r.0.shape@ == squeeze_shape_2d(pool3d_out_shape(shape_2d_as_3d(x.shape@), lift2(kernel_size, 1), lift2(stride, 1), lift2(padding, 0), lift2(dilation, 1), ceil_mode)),
        r.1.shape@ == r.0.shape@,
        r.0.dtype == DType::BF16,
        r.1.dtype == DType::I64,
        r.0.wf(),
        r.1.wf(),
        max_pool_result_narrowed(*gt, neg_inf, *to_f32, *from_f32, x.data@, shape_2d_as_3d(x.shape@), lift2(kernel_size, 1), lift2(stride, 1), lift2(padding, 0), lift2(dilation, 1), ceil_mode, r.0.data@, r.1.data@),
{
    proof {
        lemma_wf_2d_as_3d(x.shape@);
    }
    let x_3d = expand_2d_to_3d(x);
    let (output, indices) = max_pool3d_with_indices_bf16(
        x_3d,
        [1, kernel_size[0], kernel_size[1]],
        [1, stride[0], stride[1]],
        [0, padding[0], padding[1]],
        [1, dilation[0], dilation[1]],
        ceil_mode,
        neg_inf,
        gt, to_f32, from_f32,
    );
    proof {
        lemma_wf_squeeze_2d(output.shape@);
    }
    (squeeze_3d_to_2d(output), squeeze_3d_to_2d(indices))
}

/// 2D max pooling (without indices) for f32.
pub fn max_pool2d_f32<T: Copy, G: Fn(T, T) -> bool>(
    x: HostTensor<T>,
    kernel_size: [usize; 2],
    stride: [usize; 2],
    padding: [usize; 2],
    dilation: [usize; 2],
    ceil_mode: bool,
    neg_inf: T,
    gt: &G,
) -> (r: HostTensor<T>)
    requires
        x.wf(),
        x.shape@.len() == 4,
        pool3d_ok(shape_2d_as_3d(x.shape@), lift2(kernel_size, 1), lift2(stride, 1), lift2(padding, 0), lift2(dilation, 1), ceil_mode),
        forall|a: T, b: T| call_requires(*gt, (a, b)),
    ensures
        r.shape@ == squeeze_shape_2d(pool3d_out_shape(shape_2d_as_3d(x.shape@), lift2(kernel_size, 1), lift2(stride, 1), lift2(padding, 0), lift2(dilation, 1), ceil_mode)),
        r.dtype == DType::F32,
        r.wf(),
        exists|idx: Seq<i64>| #[trigger] max_pool_result(*gt, neg_inf, x.data@, shape_2d_as_3d(x.shape@), lift2(kernel_size, 1), lift2(stride, 1), lift2(padding, 0), lift2(dilation, 1), ceil_mode, r.data@, idx),
{
    let r = max_pool2d_with_indices_f32(x, kernel_size, stride, padding, dilation, ceil_mode, neg_inf, gt);
    r.0
}

/// 2D max pooling (without indices) for f64.
pub fn max_pool2d_f64<T: Copy, G: Fn(T, T) -> bool>(
    x: HostTensor<T>,
    kernel_size: [usize; 2],
    stride: [usize; 2],
    padding: [usize; 2],
    dilation: [usize; 2],
    ceil_mode: bool,
    neg_inf: T,
    gt: &G,
) -> (r: HostTensor<T>)
    requires
        x.wf(),
        x.shape@.len() == 4,
        pool3d_ok(shape_2d_as_3d(x.shape@), lift2(kernel_size, 1), lift2(stride, 1), lift2(padding, 0), lift2(dilation, 1), ceil_mode),
        forall|a: T, b: T| call_requires(*gt, (a, b)),
    ensures
        r.shape@ == squeeze_shape_2d(pool3d_out_shape(shape_2d_as_3d(x.shape@), lift2(kernel_size, 1), lift2(stride, 1), lift2(padding, 0), lift2(dilation, 1), ceil_mode)),
        r.dtype == DType::F64,
        r.wf(),
        exists|idx: Seq<i64>| #[trigger] max_pool_result(*gt, neg_inf, x.data@, shape_2d_as_3d(x.shape@), lift2(kernel_size, 1), lift2(stride, 1), lift2(padding, 0), lift2(dilation, 1), ceil_mode, r.data@, idx),
{
    let r = max_pool2d_with_indices_f64(x, kernel_size, stride, padding, dilation, ceil_mode, neg_inf, gt);
    r.0
}

/// 2D max pooling (without indices) for f16.
pub fn max_pool2d_f16<T: Copy, G: Fn(T, T) -> bool>(
    x: HostTensor<T>,
    kernel_size: [usize; 2],
    stride: [usize; 2],
    padding: [usize; 2],
    dilation: [usize; 2],
    ceil_mode: bool,
    neg_inf: T,
    gt: &G,
) -> (r: HostTensor<T>)
    requires
        x.wf(),
        x.shape@.len() == 4,
        pool3d_ok(shape_2d_as_3d(x.shape@), lift2(kernel_size, 1), lift2(stride, 1), lift2(padding, 0), lift2(dilation, 1), ceil_mode),
        forall|a: T, b: T| call_requires(*gt, (a, b)),
    ensures
        r.shape@ == squeeze_shape_2d(pool3d_out_shape(shape_2d_as_3d(x.shape@), lift2(kernel_size, 1), lift2(stride, 1), lift2(padding, 0), lift2(dilation, 1), ceil_mode)),
        r.dtype == DType::F16,
        r.wf(),
        exists|idx: Seq<i64>| #[trigger] max_pool_result(*gt, neg_inf, x.data@, shape_2d_as_3d(x.shape@), lift2(kernel_size, 1), lift2(stride, 1), lift2(padding, 0), lift2(dilation, 1), ceil_mode, r.data@, idx),
{
    let r = max_pool2d_with_indices_f16(x, kernel_size, stride, padding, dilation, ceil_mode, neg_inf, gt);
    r.0
}

/// 2D max pooling (without indices) for bf16.
pub fn max_pool2d_bf16<S: Copy, T: Copy, G: Fn(T, T) -> bool, U: Fn(S) -> T, D: Fn(T) -> S>(
    x: HostTensor<S>,
    kernel_size: [usize; 2],
    stride: [usize; 2],
    padding: [usize; 2],
    dilation: [usize; 2],
    ceil_mode: bool,
    neg_inf: T,
    gt: &G,
    to_f32: &U,
    from_f32: &D,
) -> (r: HostTensor<S>)
    requires
        x.wf(),
        x.shape@.len() == 4,
        pool3d_ok(shape_2d_as_3d(x.shape@), lift2(kernel_size, 1), lift2(stride, 1), lift2(padding, 0), lift2(dilation, 1), ceil_mode),
        forall|a: T, b: T| call_requires(*gt, (a, b)),
        forall|a: S| call_requires(*to_f32, (a,)),
        forall|a: T| call_requires(*from_f32, (a,)),
    ensures
        r.shape@ == squeeze_shape_2d(pool3d_out_shape(shape_2d_as_3d(x.shape@), lift2(kernel_size, 1), lift2(stride, 1), lift2(padding, 0), lift2(dilation, 1), ceil_mode)),
        r.dtype == DType::BF16,
        r.wf(),
        exists|idx: Seq<i64>| #[trigger] max_pool_result_narrowed(*gt, neg_inf, *to_f32, *from_f32, x.data@, shape_2d_as_3d(x.shape@), lift2(kernel_size, 1), lift2(stride, 1), lift2(padding, 0), lift2(dilation, 1), ceil_mode, r.data@, idx),
{
    let r = max_pool2d_with_indices_bf16(x, kernel_size, stride, padding, dilation, ceil_mode, neg_inf, gt, to_f32, from_f32);
    r.0
}

/// 1D max pooling with indices for f32: pooled as a 3D input with unit
/// depth and height axes.
pub fn max_pool1d_with_indices_f32<T: Copy, G: Fn(T, T) -> bool>(
    x: HostTensor<T>,
    kernel_size: usize,
    stride: usize,
    padding: usize,
    dilation: usize,
    ceil_mode: bool,
    neg_inf: T,
    gt: &G,
) -> (r: (HostTensor<T>, HostTensor<i64>))
    requires
        x.wf(),
        x.shape@.len() == 3,
        pool3d_ok(shape_1d_as_3d(x.shape@), lift1(kernel_size, 1), lift1(stride, 1), lift1(padding, 0), lift1(dilation, 1), ceil_mode),
        forall|a: T, b: T| call_requires(*gt, (a, b)),
    ensures
        r.0.shape@ == squeeze_shape_1d(pool3d_out_shape(shape_1d_as_3d(x.shape@), lift1(kernel_size, 1), lift1(stride, 1), lift1(padding, 0), lift1(dilation, 1), ceil_mode)),
        r.1.shape@ == r.0.shape@,
        r.0.dtype == DType::F32,
        r.1.dtype == DType::I64,
        r.0.wf(),
        r.1.wf(),
        max_pool_result(*gt, neg_inf, x.data@, shape_1d_as_3d(x.shape@), lift1(kernel_size, 1), lift1(stride, 1), lift1(padding, 0), lift1(dilation, 1), ceil_mode, r.0.data@, r.1.data@),
{
    proof {
        lemma_wf_1d_as_3d(x.shape@);
    }
    let x_3d = expand_1d_to_3d(x);
    let (output, indices) = max_pool3d_with_indices_f32(
        x_3d,
        [1, 1, kernel_size],
        [1, 1, stride],
        [0, 0, padding],
        [1, 1, dilation],
        ceil_mode,
        neg_inf,
        gt,
    );
    proof {
        lemma_wf_squeeze_1d(output.shape@);
    }
    (squeeze_3d_to_1d(output), squeeze_3d_to_1d(indices))
}

/// 1D max pooling (without indices) for f32.
pub fn max_pool1d_f32<T: Copy, G: Fn(T, T) -> bool>(
    x: HostTensor<T>,
    kernel_size: usize,
    stride: usize,
    padding: usize,
    dilation: usize,
    ceil_mode: bool,
    neg_inf: T,
    gt: &G,
) -> (r: HostTensor<T>)
    requires
        x.wf(),
        x.shape@.len() == 3,
        pool3d_ok(shape_1d_as_3d(x.shape@), lift1(kernel_size, 1), lift1(stride, 1), lift1(padding, 0), lift1(dilation, 1), ceil_mode),
        forall|a: T, b: T| call_requires(*gt, (a, b)),
    ensures
        r.shape@ == squeeze_shape_1d(pool3d_out_shape(shape_1d_as_3d(x.shape@), lift1(kernel_size, 1), lift1(stride, 1), lift1(padding, 0), lift1(dilation, 1), ceil_mode)),
        r.dtype == DType::F32,
        r.wf(),
        exists|idx: Seq<i64>| #[trigger] max_pool_result(*gt, neg_inf, x.data@, shape_1d_as_3d(x.shape@), lift1(kernel_size, 1), lift1(stride, 1), lift1(padding, 0), lift1(dilation, 1), ceil_mode, r.data@, idx),
{
    let r = max_pool1d_with_indices_f32(x, kernel_size, stride, padding, dilation, ceil_mode, neg_inf, gt);
    r.0
}


/// Whether an element conversion gives at most one value for each element.
pub open spec fn conversion_deterministic<S, T, F: Fn(S) -> T>(f: F) -> bool {
    forall|a: S, r1: T, r2: T| call_ensures(f, (a,), r1) && call_ensures(f, (a,), r2) ==> r1 == r2
}

/// Narrowed max pooling agrees with max pooling of the widened input: with
/// a deterministic comparison and widening, it picks the same positions,
/// and its maxima are the widened pooling's maxima narrowed with `from_f32`.
pub proof fn lemma_max_pool_narrowed_agrees<S, T, G: Fn(T, T) -> bool, U: Fn(S) -> T, D: Fn(T) -> S>(
    gt: G,
    neg_inf: T,
    to_f32: U,
    from_f32: D,
    x: Seq<S>,
    wide_x: Seq<T>,
    shape: Seq<usize>,
    kernel: [usize; 3],
    stride: [usize; 3],
    padding: [usize; 3],
    dilation: [usize; 3],
    ceil_mode: bool,
    out: Seq<S>,
    idx: Seq<i64>,
    wide_out: Seq<T>,
    wide_idx: Seq<i64>,
)
    requires
        gt_deterministic(gt),
        conversion_deterministic(to_f32),
        converted(to_f32, x, wide_x),
        max_pool_result_narrowed(gt, neg_inf, to_f32, from_f32, x, shape, kernel, stride, padding, dilation, ceil_mode, out, idx),
        max_pool_result(gt, neg_inf, wide_x, shape, kernel, stride, padding, dilation, ceil_mode, wide_out, wide_idx),
        idx.len() == wide_idx.len(),
    ensures
        idx == wide_idx,
        converted(from_f32, wide_out, out),
{
    let (w, wo) = choose|w: Seq<T>, wo: Seq<T>| {
        &&& converted(to_f32, x, w)
        &&& #[trigger] max_pool_result(gt, neg_inf, w, shape, kernel, stride, padding, dilation, ceil_mode, wo, idx)
        &&& converted(from_f32, wo, out)
    };
    assert forall|i: int| 0 <= i < w.len() implies w[i] == wide_x[i] by {
        assert(call_ensures(to_f32, (x[i],), w[i]));
        assert(call_ensures(to_f32, (x[i],), wide_x[i]));
    }
    assert(w =~= wide_x);
    let o = pool3d_out_dims(spatial_dims(shape), kernel, stride, padding, dilation, ceil_mode);
    assert(wo.len() == idx.len() && wide_out.len() == wide_idx.len());
    assert forall|i: int| 0 <= i < idx.len() implies #[trigger] wo[i] == wide_out[i] && idx[i] == wide_idx[i] by {
        let steps = max_pool_out_steps(w, shape, kernel, stride, padding, dilation, o, i);
        assert(max_scans_to(gt, (neg_inf, -1i64), steps, (wo[i], idx[i])));
        assert(max_scans_to(gt, (neg_inf, -1i64), max_pool_out_steps(wide_x, shape, kernel, stride, padding, dilation, o, i), (wide_out[i], wide_idx[i])));
        lemma_max_scans_to_unique(gt, (neg_inf, -1i64), steps, (wo[i], idx[i]), (wide_out[i], wide_idx[i]));
    }
    assert forall|i: int| 0 <= i < idx.len() implies #[trigger] idx[i] == wide_idx[i] by {
        assert(wo[i] == wide_out[i] && idx[i] == wide_idx[i]);
    }
    assert(idx =~= wide_idx);
    assert(wo =~= wide_out);
}

} // verus!
