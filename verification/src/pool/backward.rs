//! Backward passes of the pooling operators: the output gradient is
//! scattered back onto the input positions it came from.
use vstd::prelude::*;
use crate::tensor::{DType, HostTensor, shape_numel, lemma_numel_5};
use crate::fold::{folds_to, scatter_steps, scatters_to, lemma_scatters_to_empty, lemma_scatters_to_push};
use crate::arith::{lemma_div_mod_offset, lemma_mul_nonneg};
use crate::fold::{count_true, lemma_count_true_push, lemma_count_true_le};
use super::{unflatten3, unflatten4, unflatten3_exec, offset3_exec, shape_2d_as_3d, converted, convert_bf16_to_f32,
    convert_f32_to_bf16, expand_2d_to_3d, squeeze_3d_to_2d};
use super::max::{lemma_wf_2d_as_3d, lemma_wf_squeeze_2d};
use super::average::{avg_window_tap, avg_window_inside, avg_tap_axis, avg_window_steps, avg_window_padded, avg_divisor};
use super::adaptive::{adaptive_window_offset, adaptive_window_volume, adaptive_start, adaptive_end, adaptive_range, adaptive_window_steps, lemma_adaptive_window_bounds};

verus! {

/// A vector of `n` copies of `v`.
pub fn filled<T: Copy>(v: T, n: usize) -> (r: Vec<T>)
    ensures
        r@ == Seq::new(n as nat, |i: int| v),
{
    let mut r: Vec<T> = Vec::new();
    let mut i: usize = 0;
    while i < n
        invariant
            i <= n,
            r@ == Seq::new(i as nat, |k: int| v),
        decreases n - i,
    {
        r.push(v);
        i += 1;
        assert(r@ =~= Seq::new(i as nat, |k: int| v));
    }
    r
}

/// The scatter events of max-pool backward for one plane: output gradient
/// `j` goes to the position its index records, unless the index is negative.
pub open spec fn max_backward_events<T>(
    indices: Seq<i64>,
    grad: Seq<T>,
    gbase: int,
    spatial_out: int,
) -> Seq<Option<(int, T)>> {
    Seq::new(
        spatial_out as nat,
        |j: int|
            if indices[gbase + j] >= 0 {
                Option::Some((indices[gbase + j] as int, grad[gbase + j]))
            } else {
                Option::None
            },
    )
}

fn max_backward_plane<T: Copy, A: Fn(T, T) -> T>(
    grad: &Vec<T>,
    indices: &Vec<i64>,
    gbase: usize,
    spatial_out: usize,
    spatial_in: usize,
    zero: T,
    add_fn: &A,
) -> (plane: Vec<T>)
    requires
        gbase + spatial_out <= grad.len(),
        gbase + spatial_out <= indices.len(),
        forall|j: int| gbase <= j < gbase + spatial_out ==> #[trigger] indices@[j] < spatial_in,
        forall|a: T, b: T| call_requires(*add_fn, (a, b)),
    ensures
        scatters_to(
            *add_fn,
            Seq::new(spatial_in as nat, |i: int| zero),
            max_backward_events(indices@, grad@, gbase as int, spatial_out as int),
            plane@,
        ),
{
    let ghost init = Seq::new(spatial_in as nat, |i: int| zero);
    let ghost events = max_backward_events(indices@, grad@, gbase as int, spatial_out as int);
    let mut plane = filled(zero, spatial_in);
    proof {
        lemma_scatters_to_empty(*add_fn, init);
        assert(events.take(0) =~= Seq::<Option<(int, T)>>::empty());
    }
    let mut j: usize = 0;
    while j < spatial_out
        invariant
            j <= spatial_out,
            gbase + spatial_out <= grad.len(),
            gbase + spatial_out <= indices.len(),
            forall|j: int| gbase <= j < gbase + spatial_out ==> #[trigger] indices@[j] < spatial_in,
            forall|a: T, b: T| call_requires(*add_fn, (a, b)),
            init == Seq::new(spatial_in as nat, |i: int| zero),
            events == max_backward_events(indices@, grad@, gbase as int, spatial_out as int),
            scatters_to(*add_fn, init, events.take(j as int), plane@),
        decreases spatial_out - j,
    {
        let ghost before = plane@;
        let idx = indices[gbase + j];
        if idx >= 0 {
            let l = idx as usize;
            assert(indices@[gbase + j] < spatial_in);
            let v = add_fn(plane[l], grad[gbase + j]);
            plane.set(l, v);
        }
        proof {
            lemma_scatters_to_push(*add_fn, init, events.take(j as int), before, events[j as int], plane@);
            assert(events.take(j as int).push(events[j as int]) =~= events.take(j + 1));
        }
        j += 1;
    }
    assert(events.take(spatial_out as int) =~= events);
    plane
}

/// The arguments on which a backward pass from a `[batch, channels, ..]`
/// gradient onto the input of shape `x_shape` is defined.
pub open spec fn backward_shapes_ok(x_shape: Seq<usize>, grad_shape: Seq<usize>) -> bool {
    &&& x_shape.len() == 5
    &&& grad_shape.len() == 5
    &&& grad_shape[0] == x_shape[0]
    &&& grad_shape[1] == x_shape[1]
    &&& x_shape[0] * x_shape[1] <= usize::MAX
    &&& x_shape[2] * x_shape[3] * x_shape[4] <= usize::MAX
    &&& x_shape[0] * x_shape[1] * (x_shape[2] * x_shape[3] * x_shape[4]) <= usize::MAX
    &&& grad_shape[2] * grad_shape[3] * grad_shape[4] <= usize::MAX
}

/// Input element `p` of a max-pool backward: the gradients of the outputs of
/// its plane whose index points at it, accumulated in output order.
pub open spec fn max_backward_value<T, A: Fn(T, T) -> T>(
    add_fn: A,
    zero: T,
    x_shape: Seq<usize>,
    grad_shape: Seq<usize>,
    grad: Seq<T>,
    indices: Seq<i64>,
    p: int,
    v: T,
) -> bool {
    let spatial_in = x_shape[2] * x_shape[3] * x_shape[4];
    let spatial_out = grad_shape[2] * grad_shape[3] * grad_shape[4];
    let bc = p / spatial_in;
    let l = p % spatial_in;
    folds_to(add_fn, zero, scatter_steps(max_backward_events(indices, grad, bc * spatial_out, spatial_out), l), v)
}

/// Generic max pool 3D backward: every output gradient is added to the input
/// position its recorded index names; positions with index `-1` contribute nothing.
pub fn max_pool3d_backward_impl<T: Copy, A: Fn(T, T) -> T>(
    x: HostTensor<T>,
    grad: HostTensor<T>,
    indices: HostTensor<i64>,
    dtype: DType,
    zero: T,
    add_fn: &A,
) -> (r: HostTensor<T>)
    requires
        backward_shapes_ok(x.shape@, grad.shape@),
        grad.wf(),
        indices.shape@ == grad.shape@,
        indices.wf(),
        forall|j: int| 0 <= j < indices.data.len() ==> #[trigger] indices.data@[j] < x.shape[2] * x.shape[3] * x.shape[4],
        forall|a: T, b: T| call_requires(*add_fn, (a, b)),
    ensures
        r.shape@ == x.shape@,
        r.dtype == dtype,
        r.wf(),
        forall|p: int| 0 <= p < r.data.len() ==> #[trigger] max_backward_value(
            *add_fn, zero, x.shape@, grad.shape@, grad.data@, indices.data@, p, r.data@[p]),
{
    proof {
        lemma_numel_5(x.shape@);
        lemma_numel_5(grad.shape@);
    }
    let batch_size = x.shape[0];
    let channels = x.shape[1];
    let in_d = x.shape[2];
    let in_h = x.shape[3];
    let in_w = x.shape[4];
    let out_d = grad.shape[2];
    let out_h = grad.shape[3];
    let out_w = grad.shape[4];
    assert(out_d * out_h <= out_d * out_h * out_w || out_w == 0) by (nonlinear_arith)
        requires out_w >= 0, out_d * out_h >= 0;
    assert(in_d * in_h <= in_d * in_h * in_w || in_w == 0) by (nonlinear_arith)
        requires in_w >= 0, in_d * in_h >= 0;
    assert(in_w == 0 ==> in_d * in_h * in_w == 0) by (nonlinear_arith);
    assert(out_w == 0 ==> out_d * out_h * out_w == 0) by (nonlinear_arith);
    let spatial_in = if in_w == 0 { 0 } else { in_d * in_h * in_w };
    let spatial_out = if out_w == 0 { 0 } else { out_d * out_h * out_w };
    let bc_total = batch_size * channels;
    assert(grad.data.len() == bc_total * spatial_out) by (nonlinear_arith)
        requires
            grad.data.len() == batch_size * channels * out_d * out_h * out_w,
            bc_total == batch_size * channels,
            spatial_out == out_d * out_h * out_w;

    let mut output: Vec<T> = Vec::new();
    let mut bc: usize = 0;
    while bc < bc_total
        invariant
            bc <= bc_total,
            x.shape@.len() == 5,
            grad.shape@.len() == 5,
            spatial_in == in_d * in_h * in_w,
            in_d == x.shape[2],
            in_h == x.shape[3],
            in_w == x.shape[4],
            output.len() == bc * spatial_in,
            bc_total == batch_size * channels,
            bc_total * spatial_in <= usize::MAX,
            grad.data.len() == bc_total * spatial_out,
            indices.data.len() == grad.data.len(),
            spatial_in == x.shape[2] * x.shape[3] * x.shape[4],
            spatial_out == grad.shape[2] * grad.shape[3] * grad.shape[4],
            forall|j: int| 0 <= j < indices.data.len() ==> #[trigger] indices.data@[j] < spatial_in,
            forall|a: T, b: T| call_requires(*add_fn, (a, b)),
            forall|p: int| 0 <= p < output.len() ==> #[trigger] max_backward_value(
                *add_fn, zero, x.shape@, grad.shape@, grad.data@, indices.data@, p, output@[p]),
        decreases bc_total - bc,
    {
        proof {
            assert((bc + 1) * spatial_out <= bc_total * spatial_out) by (nonlinear_arith)
                requires bc + 1 <= bc_total, spatial_out >= 0;
            assert((bc + 1) * spatial_out == bc * spatial_out + spatial_out) by (nonlinear_arith);
            assert((bc + 1) * spatial_in <= bc_total * spatial_in) by (nonlinear_arith)
                requires bc + 1 <= bc_total, spatial_in >= 0;
            assert((bc + 1) * spatial_in == bc * spatial_in + spatial_in) by (nonlinear_arith);
        }
        let gbase = bc * spatial_out;
        let plane = max_backward_plane(&grad.data, &indices.data, gbase, spatial_out, spatial_in, zero, add_fn);
        let ghost events = max_backward_events(indices.data@, grad.data@, gbase as int, spatial_out as int);
        let mut l: usize = 0;
        while l < spatial_in
            invariant
                l <= spatial_in,
                x.shape@.len() == 5,
                grad.shape@.len() == 5,
                output.len() == bc * spatial_in + l,
                (bc + 1) * spatial_in <= usize::MAX,
                plane.len() == spatial_in,
                spatial_in == x.shape[2] * x.shape[3] * x.shape[4],
                spatial_out == grad.shape[2] * grad.shape[3] * grad.shape[4],
                gbase == bc * spatial_out,
                events == max_backward_events(indices.data@, grad.data@, gbase as int, spatial_out as int),
                scatters_to(*add_fn, Seq::new(spatial_in as nat, |i: int| zero), events, plane@),
                forall|p: int| 0 <= p < output.len() ==> #[trigger] max_backward_value(
                    *add_fn, zero, x.shape@, grad.shape@, grad.data@, indices.data@, p, output@[p]),
            decreases spatial_in - l,
        {
            output.push(plane[l]);
            proof {
                let p = bc * spatial_in + l;
                lemma_div_mod_offset(bc as int, l as int, spatial_in as int);
                assert(folds_to(*add_fn, Seq::new(spatial_in as nat, |i: int| zero)[l as int], scatter_steps(events, l as int), plane@[l as int]));
                assert(max_backward_value(*add_fn, zero, x.shape@, grad.shape@, grad.data@, indices.data@, p, output@[p]));
            }
            l += 1;
        }
        bc += 1;
    }
    let out_shape = vec![batch_size, channels, in_d, in_h, in_w];
    proof {
        lemma_numel_5(out_shape@);
        assert(out_shape@ =~= x.shape@);
        assert(output.len() == batch_size * channels * in_d * in_h * in_w) by (nonlinear_arith)
            requires
                output.len() == bc_total * spatial_in,
                bc_total == batch_size * channels,
                spatial_in == in_d * in_h * in_w;
    }
    HostTensor::new(output, out_shape, dtype)
}

/// The scatter events of one output gradient of average-pool backward: its
/// distributed share `d` goes to every tap of the window inside the input.
pub open spec fn avg_backward_window_events<T>(
    in_dims: [usize; 3],
    kernel: [usize; 3],
    stride: [usize; 3],
    padding: [usize; 3],
    pos: (int, int, int),
    d: T,
) -> Seq<Option<(int, T)>> {
    Seq::new(
        (kernel[0] * kernel[1] * kernel[2]) as nat,
        |q: int|
            match avg_window_tap(in_dims, kernel, stride, padding, pos, q).1 {
                Option::Some(l) => Option::Some((l, d)),
                Option::None => Option::None,
            },
    )
}

/// The scatter events of the first `n` output gradients of one plane, whose
/// distributed shares are `ds`.
pub open spec fn avg_backward_events<T>(
    in_dims: [usize; 3],
    out_dims: [usize; 3],
    kernel: [usize; 3],
    stride: [usize; 3],
    padding: [usize; 3],
    ds: Seq<T>,
    n: int,
) -> Seq<Option<(int, T)>>
    decreases n,
{
    if n <= 0 {
        Seq::empty()
    } else {
        let pos = unflatten3(n - 1, out_dims[1] as int, out_dims[2] as int);
        avg_backward_events(in_dims, out_dims, kernel, stride, padding, ds, n - 1)
            + avg_backward_window_events(in_dims, kernel, stride, padding, pos, ds[n - 1])
    }
}

/// The divisor of one output gradient, the one its forward window was
/// divided by: the number of window taps inside the padded input when
/// padding counts, else the number inside the input (at least one).
pub open spec fn avg_backward_divisor(
    in_dims: [usize; 3],
    kernel: [usize; 3],
    stride: [usize; 3],
    padding: [usize; 3],
    pos: (int, int, int),
    count_include_pad: bool,
) -> int {
    let c = if count_include_pad {
        count_true(avg_window_padded(in_dims, kernel, stride, padding, pos))
    } else {
        count_true(avg_window_inside(in_dims, kernel, stride, padding, pos))
    };
    if c >= 1 { c as int } else { 1 }
}

/// Counts the taps of a window that lie inside the input, and those that
/// lie inside the padded input.
fn avg_window_count(
    in_dims: [usize; 3],
    kernel: [usize; 3],
    stride: [usize; 3],
    padding: [usize; 3],
    pos: [usize; 3],
) -> (r: (usize, usize))
    requires
        kernel[1] > 0,
        kernel[2] > 0,
        kernel[0] * kernel[1] * kernel[2] <= usize::MAX,
        in_dims[0] + 2 * padding[0] <= usize::MAX,
        in_dims[1] + 2 * padding[1] <= usize::MAX,
        in_dims[2] + 2 * padding[2] <= usize::MAX,
    ensures
        r.0 == count_true(avg_window_inside(in_dims, kernel, stride, padding, (pos[0] as int, pos[1] as int, pos[2] as int))),
        r.1 == count_true(avg_window_padded(in_dims, kernel, stride, padding, (pos[0] as int, pos[1] as int, pos[2] as int))),
{
    let ghost inside = avg_window_inside(in_dims, kernel, stride, padding, (pos[0] as int, pos[1] as int, pos[2] as int));
    let ghost padded = avg_window_padded(in_dims, kernel, stride, padding, (pos[0] as int, pos[1] as int, pos[2] as int));
    assert(kernel[0] * kernel[1] <= kernel[0] * kernel[1] * kernel[2]) by (nonlinear_arith)
        requires kernel[2] >= 1, kernel[0] * kernel[1] >= 0;
    let kvol = kernel[0] * kernel[1] * kernel[2];
    let mut count: usize = 0;
    let mut count_padded: usize = 0;
    let mut q: usize = 0;
    assert(inside.take(0) =~= Seq::<bool>::empty());
    assert(padded.take(0) =~= Seq::<bool>::empty());
    while q < kvol
        invariant
            kvol == kernel[0] * kernel[1] * kernel[2],
            q <= kvol,
            inside.len() == kvol,
            kernel[1] > 0,
            kernel[2] > 0,
            in_dims[0] + 2 * padding[0] <= usize::MAX,
            in_dims[1] + 2 * padding[1] <= usize::MAX,
            in_dims[2] + 2 * padding[2] <= usize::MAX,
            inside == avg_window_inside(in_dims, kernel, stride, padding, (pos[0] as int, pos[1] as int, pos[2] as int)),
            count == count_true(inside.take(q as int)),
            padded.len() == kvol,
            padded == avg_window_padded(in_dims, kernel, stride, padding, (pos[0] as int, pos[1] as int, pos[2] as int)),
            count_padded == count_true(padded.take(q as int)),
        decreases kvol - q,
    {
        let (a, b, c) = unflatten3_exec(q, kernel[0], kernel[1], kernel[2]);
        let (pd, id) = avg_tap_axis(pos[0], a, stride[0], padding[0], in_dims[0]);
        let (ph, ih) = avg_tap_axis(pos[1], b, stride[1], padding[1], in_dims[1]);
        let (pw, iw) = avg_tap_axis(pos[2], c, stride[2], padding[2], in_dims[2]);
        proof {
            lemma_count_true_le(inside.take(q as int));
            lemma_count_true_push(inside.take(q as int), inside[q as int]);
            assert(inside.take(q as int).push(inside[q as int]) =~= inside.take(q + 1));
            lemma_count_true_le(padded.take(q as int));
            lemma_count_true_push(padded.take(q as int), padded[q as int]);
            assert(padded.take(q as int).push(padded[q as int]) =~= padded.take(q + 1));
        }
        if id.is_some() && ih.is_some() && iw.is_some() {
            count += 1;
        }
        if pd && ph && pw {
            count_padded += 1;
        }
        q += 1;
    }
    assert(inside.take(kvol as int) =~= inside);
    assert(padded.take(kvol as int) =~= padded);
    (count, count_padded)
}

/// Adds the share `d` to every window tap inside the input.
fn avg_backward_window<T: Copy, A: Fn(T, T) -> T>(
    plane: &mut Vec<T>,
    in_dims: [usize; 3],
    kernel: [usize; 3],
    stride: [usize; 3],
    padding: [usize; 3],
    pos: [usize; 3],
    d: T,
    add_fn: &A,
    Ghost(init): Ghost<Seq<T>>,
    Ghost(events): Ghost<Seq<Option<(int, T)>>>,
)
    requires
        old(plane).len() == in_dims[0] * in_dims[1] * in_dims[2],
        in_dims[0] * in_dims[1] * in_dims[2] <= usize::MAX,
        kernel[1] > 0,
        kernel[2] > 0,
        kernel[0] * kernel[1] * kernel[2] <= usize::MAX,
        in_dims[0] + 2 * padding[0] <= usize::MAX,
        in_dims[1] + 2 * padding[1] <= usize::MAX,
        in_dims[2] + 2 * padding[2] <= usize::MAX,
        forall|a: T, b: T| call_requires(*add_fn, (a, b)),
        scatters_to(*add_fn, init, events, old(plane)@),
    ensures
        scatters_to(
            *add_fn,
            init,
            events + avg_backward_window_events(in_dims, kernel, stride, padding, (pos[0] as int, pos[1] as int, pos[2] as int), d),
            final(plane)@,
        ),
{
    let ghost we = avg_backward_window_events(in_dims, kernel, stride, padding, (pos[0] as int, pos[1] as int, pos[2] as int), d);
    assert(kernel[0] * kernel[1] <= kernel[0] * kernel[1] * kernel[2]) by (nonlinear_arith)
        requires kernel[2] >= 1, kernel[0] * kernel[1] >= 0;
    let kvol = kernel[0] * kernel[1] * kernel[2];
    let mut q: usize = 0;
    assert(events + we.take(0) =~= events);
    while q < kvol
        invariant
            kvol == kernel[0] * kernel[1] * kernel[2],
            q <= kvol,
            we.len() == kvol,
            plane.len() == in_dims[0] * in_dims[1] * in_dims[2],
            in_dims[0] * in_dims[1] * in_dims[2] <= usize::MAX,
            kernel[1] > 0,
            kernel[2] > 0,
            in_dims[0] + 2 * padding[0] <= usize::MAX,
            in_dims[1] + 2 * padding[1] <= usize::MAX,
            in_dims[2] + 2 * padding[2] <= usize::MAX,
            forall|a: T, b: T| call_requires(*add_fn, (a, b)),
            we == avg_backward_window_events(in_dims, kernel, stride, padding, (pos[0] as int, pos[1] as int, pos[2] as int), d),
            scatters_to(*add_fn, init, events + we.take(q as int), plane@),
        decreases kvol - q,
    {
        let ghost before = plane@;
        let (a, b, c) = unflatten3_exec(q, kernel[0], kernel[1], kernel[2]);
        let (_, id) = avg_tap_axis(pos[0], a, stride[0], padding[0], in_dims[0]);
        let (_, ih) = avg_tap_axis(pos[1], b, stride[1], padding[1], in_dims[1]);
        let (_, iw) = avg_tap_axis(pos[2], c, stride[2], padding[2], in_dims[2]);
        match (id, ih, iw) {
            (Option::Some(id), Option::Some(ih), Option::Some(iw)) => {
                let l = offset3_exec(id, ih, iw, Ghost(in_dims[0] as int), in_dims[1], in_dims[2]);
                let v = add_fn(plane[l], d);
                plane.set(l, v);
                assert(we[q as int] == Option::Some((l as int, d)));
            },
            _ => {
                assert(we[q as int] == Option::<(int, T)>::None);
            },
        }
        proof {
            lemma_scatters_to_push(*add_fn, init, events + we.take(q as int), before, we[q as int], plane@);
            assert((events + we.take(q as int)).push(we[q as int]) =~= events + we.take(q + 1));
        }
        q += 1;
    }
    assert(we.take(kvol as int) =~= we);
}

/// The events of the first `n` output gradients depend only on the first `n` shares.
pub proof fn lemma_avg_backward_events_prefix<T>(
    in_dims: [usize; 3],
    out_dims: [usize; 3],
    kernel: [usize; 3],
    stride: [usize; 3],
    padding: [usize; 3],
    ds1: Seq<T>,
    ds2: Seq<T>,
    n: int,
)
    requires
        0 <= n <= ds1.len(),
        n <= ds2.len(),
        forall|i: int| 0 <= i < n ==> ds1[i] == ds2[i],
    ensures
        avg_backward_events(in_dims, out_dims, kernel, stride, padding, ds1, n)
            == avg_backward_events(in_dims, out_dims, kernel, stride, padding, ds2, n),
    decreases n,
{
    if n > 0 {
        lemma_avg_backward_events_prefix(in_dims, out_dims, kernel, stride, padding, ds1, ds2, n - 1);
    }
}

/// The per-axis arguments on which an average-pool backward over input
/// extents `in_dims` and output extents `out_dims` is defined.
pub open spec fn avg_backward_args_ok(
    in_dims: [usize; 3],
    out_dims: [usize; 3],
    kernel: [usize; 3],
    padding: [usize; 3],
) -> bool {
    &&& kernel[1] > 0
    &&& kernel[2] > 0
    &&& kernel[0] * kernel[1] * kernel[2] <= usize::MAX
    &&& in_dims[0] + 2 * padding[0] <= usize::MAX
    &&& in_dims[1] + 2 * padding[1] <= usize::MAX
    &&& in_dims[2] + 2 * padding[2] <= usize::MAX
    &&& in_dims[0] * in_dims[1] * in_dims[2] <= usize::MAX
    &&& out_dims[0] * out_dims[1] * out_dims[2] <= usize::MAX
}

fn avg_backward_plane<T: Copy, A: Fn(T, T) -> T, D: Fn(T, usize) -> T>(
    grad: &Vec<T>,
    gbase: usize,
    out_dims: [usize; 3],
    in_dims: [usize; 3],
    kernel: [usize; 3],
    stride: [usize; 3],
    padding: [usize; 3],
    count_include_pad: bool,
    zero: T,
    add_fn: &A,
    div_fn: &D,
) -> (r: (Vec<T>, Ghost<Seq<T>>))
    requires
        avg_backward_args_ok(in_dims, out_dims, kernel, padding),
        gbase + out_dims[0] * out_dims[1] * out_dims[2] <= grad.len(),
        forall|a: T, b: T| call_requires(*add_fn, (a, b)),
        forall|a: T, n: usize| call_requires(*div_fn, (a, n)),
    ensures
        ({
            let so = out_dims[0] * out_dims[1] * out_dims[2];
            &&& r.1@.len() == so
            &&& forall|j: int| 0 <= j < so ==> call_ensures(
                *div_fn,
                (grad@[gbase + j], avg_backward_divisor(in_dims, kernel, stride, padding,
                    unflatten3(j, out_dims[1] as int, out_dims[2] as int), count_include_pad) as usize),
                #[trigger] r.1@[j],
            )
            &&& scatters_to(
                *add_fn,
                Seq::new((in_dims[0] * in_dims[1] * in_dims[2]) as nat, |i: int| zero),
                avg_backward_events(in_dims, out_dims, kernel, stride, padding, r.1@, so),
                r.0@,
            )
        }),
{
    assert(in_dims[0] * in_dims[1] <= in_dims[0] * in_dims[1] * in_dims[2] || in_dims[2] == 0) by (nonlinear_arith)
        requires in_dims[2] >= 0, in_dims[0] * in_dims[1] >= 0;
    assert(out_dims[0] * out_dims[1] <= out_dims[0] * out_dims[1] * out_dims[2] || out_dims[2] == 0) by (nonlinear_arith)
        requires out_dims[2] >= 0, out_dims[0] * out_dims[1] >= 0;
    assert(in_dims[2] == 0 ==> in_dims[0] * in_dims[1] * in_dims[2] == 0) by (nonlinear_arith);
    assert(out_dims[2] == 0 ==> out_dims[0] * out_dims[1] * out_dims[2] == 0) by (nonlinear_arith);
    let spatial_in = if in_dims[2] == 0 { 0 } else { in_dims[0] * in_dims[1] * in_dims[2] };
    let spatial_out = if out_dims[2] == 0 { 0 } else { out_dims[0] * out_dims[1] * out_dims[2] };
    let ghost init = Seq::new(spatial_in as nat, |i: int| zero);
    let mut plane = filled(zero, spatial_in);
    let ghost mut ds: Seq<T> = Seq::empty();
    proof {
        lemma_scatters_to_empty(*add_fn, init);
    }
    let mut j: usize = 0;
    while j < spatial_out
        invariant
            j <= spatial_out,
            spatial_out == out_dims[0] * out_dims[1] * out_dims[2],
            spatial_in == in_dims[0] * in_dims[1] * in_dims[2],
            plane.len() == spatial_in,
            avg_backward_args_ok(in_dims, out_dims, kernel, padding),
            gbase + spatial_out <= grad.len(),
            forall|a: T, b: T| call_requires(*add_fn, (a, b)),
            forall|a: T, n: usize| call_requires(*div_fn, (a, n)),
            init == Seq::new(spatial_in as nat, |i: int| zero),
            ds.len() == j,
            forall|i: int| 0 <= i < j ==> call_ensures(
                *div_fn,
                (grad@[gbase + i], avg_backward_divisor(in_dims, kernel, stride, padding,
                    unflatten3(i, out_dims[1] as int, out_dims[2] as int), count_include_pad) as usize),
                #[trigger] ds[i],
            ),
            scatters_to(*add_fn, init, avg_backward_events(in_dims, out_dims, kernel, stride, padding, ds, j as int), plane@),
        decreases spatial_out - j,
    {
        assert(out_dims[1] > 0 && out_dims[2] > 0) by (nonlinear_arith)
            requires j < spatial_out, spatial_out == out_dims[0] * out_dims[1] * out_dims[2];
        let (od, oh, ow) = unflatten3_exec(j, out_dims[0], out_dims[1], out_dims[2]);
        let (count_inside, count_padded) = avg_window_count(in_dims, kernel, stride, padding, [od, oh, ow]);
        let count = if count_include_pad { count_padded } else { count_inside };
        let divisor = if count >= 1 { count } else { 1 };
        let distributed = div_fn(grad[gbase + j], divisor);
        let ghost ds2 = ds.push(distributed);
        proof {
            lemma_avg_backward_events_prefix(in_dims, out_dims, kernel, stride, padding, ds, ds2, j as int);
        }
        avg_backward_window(
            &mut plane,
            in_dims,
            kernel,
            stride,
            padding,
            [od, oh, ow],
            distributed,
            add_fn,
            Ghost(init),
            Ghost(avg_backward_events(in_dims, out_dims, kernel, stride, padding, ds, j as int)),
        );
        proof {
            ds = ds2;
            assert(avg_backward_events(in_dims, out_dims, kernel, stride, padding, ds, j + 1)
                == avg_backward_events(in_dims, out_dims, kernel, stride, padding, ds, j as int)
                + avg_backward_window_events(in_dims, kernel, stride, padding, (od as int, oh as int, ow as int), distributed));
        }
        j += 1;
    }
    (plane, Ghost(ds))
}

/// `dss[bc][j]` is a share `div_fn` may return for output gradient `j` of
/// plane `bc` and that gradient's divisor.
pub open spec fn avg_backward_shares<T, D: Fn(T, usize) -> T>(
    div_fn: D,
    grad: Seq<T>,
    planes: int,
    in_dims: [usize; 3],
    out_dims: [usize; 3],
    kernel: [usize; 3],
    stride: [usize; 3],
    padding: [usize; 3],
    count_include_pad: bool,
    dss: Seq<Seq<T>>,
) -> bool {
    let so = out_dims[0] * out_dims[1] * out_dims[2];
    &&& dss.len() == planes
    &&& forall|bc: int| 0 <= bc < planes ==> (#[trigger] dss[bc]).len() == so
    &&& forall|bc: int, j: int| 0 <= bc < planes && 0 <= j < so ==> call_ensures(
        div_fn,
        (grad[bc * so + j], avg_backward_divisor(in_dims, kernel, stride, padding,
            unflatten3(j, out_dims[1] as int, out_dims[2] as int), count_include_pad) as usize),
        #[trigger] dss[bc][j],
    )
}

/// Input element `l` of a plane whose output gradients were distributed as `ds`.
pub open spec fn avg_backward_value<T, A: Fn(T, T) -> T>(
    add_fn: A,
    zero: T,
    in_dims: [usize; 3],
    out_dims: [usize; 3],
    kernel: [usize; 3],
    stride: [usize; 3],
    padding: [usize; 3],
    ds: Seq<T>,
    l: int,
    v: T,
) -> bool {
    folds_to(
        add_fn,
        zero,
        scatter_steps(avg_backward_events(in_dims, out_dims, kernel, stride, padding, ds,
            out_dims[0] * out_dims[1] * out_dims[2]), l),
        v,
    )
}

pub open spec fn dims_of(shape: Seq<usize>) -> [usize; 3] {
    [shape[2], shape[3], shape[4]]
}

/// `out` is what average-pool backward of `grad` onto an input of shape
/// `x_shape` can yield: for some choice of shares, every input element
/// accumulates the shares aimed at it.
pub open spec fn avg_backward_result<T, A: Fn(T, T) -> T, D: Fn(T, usize) -> T>(
    add_fn: A,
    div_fn: D,
    zero: T,
    x_shape: Seq<usize>,
    grad_shape: Seq<usize>,
    kernel: [usize; 3],
    stride: [usize; 3],
    padding: [usize; 3],
    count_include_pad: bool,
    grad: Seq<T>,
    out: Seq<T>,
) -> bool {
    exists|dss: Seq<Seq<T>>| {
        &&& #[trigger] avg_backward_shares(div_fn, grad, x_shape[0] * x_shape[1], dims_of(x_shape),
            dims_of(grad_shape), kernel, stride, padding, count_include_pad, dss)
        &&& forall|p: int| 0 <= p < out.len() ==> #[trigger] avg_backward_value(add_fn, zero,
            dims_of(x_shape), dims_of(grad_shape), kernel, stride, padding,
            dss[p / (x_shape[2] * x_shape[3] * x_shape[4])],
            p % (x_shape[2] * x_shape[3] * x_shape[4]), out[p])
    }
}

/// Generic average pool 3D backward: every output gradient is divided (with
/// `div_fn`) by the divisor its forward window was divided by, the number of
/// window taps inside the padded input when padding counts and the number
/// inside the input otherwise (at least one), and the share is added
/// to every window tap inside the input, in output order and kernel order.
pub fn avg_pool3d_backward_impl<T: Copy, A: Fn(T, T) -> T, D: Fn(T, usize) -> T>(
    x: HostTensor<T>,
    grad: HostTensor<T>,
    kernel_size: [usize; 3],
    stride: [usize; 3],
    padding: [usize; 3],
    count_include_pad: bool,
    dtype: DType,
    zero: T,
    add_fn: &A,
    div_fn: &D,
) -> (r: HostTensor<T>)
    requires
        backward_shapes_ok(x.shape@, grad.shape@),
        grad.wf(),
        avg_backward_args_ok(dims_of(x.shape@), dims_of(grad.shape@), kernel_size, padding),
        forall|a: T, b: T| call_requires(*add_fn, (a, b)),
        forall|a: T, n: usize| call_requires(*div_fn, (a, n)),
    ensures
        r.shape@ == x.shape@,
        r.dtype == dtype,
        r.wf(),
        avg_backward_result(*add_fn, *div_fn, zero, x.shape@, grad.shape@, kernel_size, stride, padding, count_include_pad, grad.data@, r.data@),
{
    proof {
        lemma_numel_5(x.shape@);
        lemma_numel_5(grad.shape@);
    }
    let ghost in3 = dims_of(x.shape@);
    let ghost out3 = dims_of(grad.shape@);
    let batch_size = x.shape[0];
    let channels = x.shape[1];
    let in_d = x.shape[2];
    let in_h = x.shape[3];
    let in_w = x.shape[4];
    let out_d = grad.shape[2];
    let out_h = grad.shape[3];
    let out_w = grad.shape[4];
    assert(out_d * out_h <= out_d * out_h * out_w || out_w == 0) by (nonlinear_arith)
        requires out_w >= 0, out_d * out_h >= 0;
    assert(in_d * in_h <= in_d * in_h * in_w || in_w == 0) by (nonlinear_arith)
        requires in_w >= 0, in_d * in_h >= 0;
    assert(in_w == 0 ==> in_d * in_h * in_w == 0) by (nonlinear_arith);
    assert(out_w == 0 ==> out_d * out_h * out_w == 0) by (nonlinear_arith);
    let spatial_in = if in_w == 0 { 0 } else { in_d * in_h * in_w };
    let spatial_out = if out_w == 0 { 0 } else { out_d * out_h * out_w };
    let bc_total = batch_size * channels;
    assert(grad.data.len() == bc_total * spatial_out) by (nonlinear_arith)
        requires
            grad.data.len() == batch_size * channels * out_d * out_h * out_w,
            bc_total == batch_size * channels,
            spatial_out == out_d * out_h * out_w;
    assert([in_d, in_h, in_w] =~= in3);
    assert([out_d, out_h, out_w] =~= out3);

    let mut output: Vec<T> = Vec::new();
    let ghost mut dss: Seq<Seq<T>> = Seq::empty();
    let mut bc: usize = 0;
    while bc < bc_total
        invariant
            bc <= bc_total,
            x.shape@.len() == 5,
            grad.shape@.len() == 5,
            in3 == [in_d, in_h, in_w],
            out3 == [out_d, out_h, out_w],
            in3 == dims_of(x.shape@),
            out3 == dims_of(grad.shape@),
            spatial_in == in_d * in_h * in_w,
            spatial_out == out_d * out_h * out_w,
            output.len() == bc * spatial_in,
            bc_total == batch_size * channels,
            batch_size == x.shape[0],
            channels == x.shape[1],
            bc_total * spatial_in <= usize::MAX,
            grad.data.len() == bc_total * spatial_out,
            avg_backward_args_ok(in3, out3, kernel_size, padding),
            forall|a: T, b: T| call_requires(*add_fn, (a, b)),
            forall|a: T, n: usize| call_requires(*div_fn, (a, n)),
            avg_backward_shares(*div_fn, grad.data@, bc as int, in3, out3, kernel_size, stride, padding, count_include_pad, dss),
            forall|p: int| 0 <= p < output.len() ==> #[trigger] avg_backward_value(*add_fn, zero,
                in3, out3, kernel_size, stride, padding, dss[p / spatial_in as int], p % spatial_in as int, output@[p]),
        decreases bc_total - bc,
    {
        proof {
            assert((bc + 1) * spatial_out <= bc_total * spatial_out) by (nonlinear_arith)
                requires bc + 1 <= bc_total, spatial_out >= 0;
            assert((bc + 1) * spatial_out == bc * spatial_out + spatial_out) by (nonlinear_arith);
            assert((bc + 1) * spatial_in <= bc_total * spatial_in) by (nonlinear_arith)
                requires bc + 1 <= bc_total, spatial_in >= 0;
            assert((bc + 1) * spatial_in == bc * spatial_in + spatial_in) by (nonlinear_arith);
        }
        let gbase = bc * spatial_out;
        let (plane, Ghost(ds)) = avg_backward_plane(
            &grad.data, gbase, [out_d, out_h, out_w], [in_d, in_h, in_w], kernel_size, stride, padding,
            count_include_pad, zero, add_fn, div_fn);
        let ghost dss2 = dss.push(ds);
        proof {
            assert forall|b: int, j: int| 0 <= b < bc + 1 && 0 <= j < spatial_out implies call_ensures(
                *div_fn,
                (grad.data@[b * spatial_out + j], avg_backward_divisor(in3, kernel_size, stride, padding,
                    unflatten3(j, out3[1] as int, out3[2] as int), count_include_pad) as usize),
                #[trigger] dss2[b][j],
            ) by {
                if b < bc {
                    assert(dss2[b] == dss[b]);
                } else {
                    assert(dss2[b] == ds);
                }
            }
            assert forall|p: int| 0 <= p < output.len() implies #[trigger] avg_backward_value(*add_fn, zero,
                in3, out3, kernel_size, stride, padding, dss2[p / spatial_in as int], p % spatial_in as int, output@[p]) by {
                assert(avg_backward_value(*add_fn, zero,
                    in3, out3, kernel_size, stride, padding, dss[p / spatial_in as int], p % spatial_in as int, output@[p]));
                assert(spatial_in > 0) by (nonlinear_arith)
                    requires 0 <= p < bc * spatial_in, spatial_in >= 0;
                assert((p / (spatial_in as int)) < bc) by (nonlinear_arith)
                    requires 0 <= p < bc * spatial_in, spatial_in > 0;
            }
        }
        let mut l: usize = 0;
        while l < spatial_in
            invariant
                l <= spatial_in,
                x.shape@.len() == 5,
                grad.shape@.len() == 5,
                output.len() == bc * spatial_in + l,
                (bc + 1) * spatial_in <= usize::MAX,
                plane.len() == spatial_in,
                spatial_in == in_d * in_h * in_w,
                spatial_out == out_d * out_h * out_w,
                in3 == [in_d, in_h, in_w],
                out3 == [out_d, out_h, out_w],
                dss2[bc as int] == ds,
                scatters_to(*add_fn, Seq::new(spatial_in as nat, |i: int| zero),
                    avg_backward_events(in3, out3, kernel_size, stride, padding, ds, spatial_out as int), plane@),
                forall|p: int| 0 <= p < output.len() ==> #[trigger] avg_backward_value(*add_fn, zero,
                    in3, out3, kernel_size, stride, padding, dss2[p / spatial_in as int], p % spatial_in as int, output@[p]),
            decreases spatial_in - l,
        {
            output.push(plane[l]);
            proof {
                let p = bc * spatial_in + l;
                lemma_div_mod_offset(bc as int, l as int, spatial_in as int);
                assert(folds_to(*add_fn, Seq::new(spatial_in as nat, |i: int| zero)[l as int],
                    scatter_steps(avg_backward_events(in3, out3, kernel_size, stride, padding, ds, spatial_out as int), l as int),
                    plane@[l as int]));
                assert(avg_backward_value(*add_fn, zero, in3, out3, kernel_size, stride, padding,
                    dss2[p / spatial_in as int], p % spatial_in as int, output@[p]));
            }
            l += 1;
        }
        proof {
            dss = dss2;
        }
        bc += 1;
    }
    let out_shape = vec![batch_size, channels, in_d, in_h, in_w];
    proof {
        lemma_numel_5(out_shape@);
        assert(out_shape@ =~= x.shape@);
        assert(output.len() == batch_size * channels * in_d * in_h * in_w) by (nonlinear_arith)
            requires
                output.len() == bc_total * spatial_in,
                bc_total == batch_size * channels,
                spatial_in == in_d * in_h * in_w;
    }
    HostTensor::new(output, out_shape, dtype)
}

/// The scatter events of one output gradient of adaptive-pool backward: its
/// share `d` goes to every position of its window box.
pub open spec fn adaptive_backward_window_events<T>(
    in_dims: [usize; 3],
    out_dims: [usize; 3],
    pos: (int, int, int),
    d: T,
) -> Seq<Option<(int, T)>> {
    Seq::new(
        adaptive_window_volume(in_dims, out_dims, pos) as nat,
        |q: int| Option::Some((adaptive_window_offset(in_dims, out_dims, pos, q), d)),
    )
}

/// The scatter events of the first `n` output gradients of one plane.
pub open spec fn adaptive_backward_events<T>(
    in_dims: [usize; 3],
    out_dims: [usize; 3],
    ds: Seq<T>,
    n: int,
) -> Seq<Option<(int, T)>>
    decreases n,
{
    if n <= 0 {
        Seq::empty()
    } else {
        let pos = unflatten3(n - 1, out_dims[1] as int, out_dims[2] as int);
        adaptive_backward_events(in_dims, out_dims, ds, n - 1)
            + adaptive_backward_window_events(in_dims, out_dims, pos, ds[n - 1])
    }
}

pub proof fn lemma_adaptive_backward_events_prefix<T>(
    in_dims: [usize; 3],
    out_dims: [usize; 3],
    ds1: Seq<T>,
    ds2: Seq<T>,
    n: int,
)
    requires
        0 <= n <= ds1.len(),
        n <= ds2.len(),
        forall|i: int| 0 <= i < n ==> ds1[i] == ds2[i],
    ensures
        adaptive_backward_events(in_dims, out_dims, ds1, n) == adaptive_backward_events(in_dims, out_dims, ds2, n),
    decreases n,
{
    if n > 0 {
        lemma_adaptive_backward_events_prefix(in_dims, out_dims, ds1, ds2, n - 1);
    }
}

/// The divisor of one adaptive output gradient: its window volume, at least one.
pub open spec fn adaptive_backward_divisor(in_dims: [usize; 3], out_dims: [usize; 3], pos: (int, int, int)) -> int {
    let v = adaptive_window_volume(in_dims, out_dims, pos);
    if v >= 1 { v } else { 1 }
}

/// Adds the share `d` to every position of the window box of `pos`.
fn adaptive_backward_window<T: Copy, A: Fn(T, T) -> T>(
    plane: &mut Vec<T>,
    in_dims: [usize; 3],
    out_dims: [usize; 3],
    pos: [usize; 3],
    d: T,
    add_fn: &A,
    Ghost(init): Ghost<Seq<T>>,
    Ghost(events): Ghost<Seq<Option<(int, T)>>>,
) -> (vol: usize)
    requires
        old(plane).len() == in_dims[0] * in_dims[1] * in_dims[2],
        in_dims[0] * in_dims[1] * in_dims[2] <= usize::MAX,
        pos[0] < out_dims[0],
        pos[1] < out_dims[1],
        pos[2] < out_dims[2],
        out_dims[0] * in_dims[0] <= usize::MAX,
        out_dims[1] * in_dims[1] <= usize::MAX,
        out_dims[2] * in_dims[2] <= usize::MAX,
        forall|a: T, b: T| call_requires(*add_fn, (a, b)),
        scatters_to(*add_fn, init, events, old(plane)@),
    ensures
        vol == adaptive_window_volume(in_dims, out_dims, (pos[0] as int, pos[1] as int, pos[2] as int)),
        scatters_to(
            *add_fn,
            init,
            events + adaptive_backward_window_events(in_dims, out_dims, (pos[0] as int, pos[1] as int, pos[2] as int), d),
            final(plane)@,
        ),
{
    let ghost p = (pos[0] as int, pos[1] as int, pos[2] as int);
    let ghost we = adaptive_backward_window_events(in_dims, out_dims, p, d);
    let (ds, de) = adaptive_range(pos[0], in_dims[0], out_dims[0]);
    let (hs, he) = adaptive_range(pos[1], in_dims[1], out_dims[1]);
    let (ws, we_) = adaptive_range(pos[2], in_dims[2], out_dims[2]);
    let dl = de - ds;
    let hl = he - hs;
    let wl = we_ - ws;
    proof {
        assert(dl * hl <= in_dims[0] * in_dims[1]) by (nonlinear_arith)
            requires dl <= in_dims[0], hl <= in_dims[1], dl >= 0, hl >= 0;
        assert(dl * hl * wl <= in_dims[0] * in_dims[1] * in_dims[2]) by (nonlinear_arith)
            requires dl * hl <= in_dims[0] * in_dims[1], wl <= in_dims[2], wl >= 0, dl * hl >= 0;
        assert(wl > 0 ==> in_dims[0] * in_dims[1] <= in_dims[0] * in_dims[1] * in_dims[2]) by (nonlinear_arith)
            requires wl <= in_dims[2], in_dims[0] * in_dims[1] >= 0;
        assert(wl == 0 ==> dl * hl * wl == 0) by (nonlinear_arith);
        lemma_mul_nonneg(dl as int, hl as int);
    }
    let vol = if wl == 0 { 0 } else { dl * hl * wl };
    let mut q: usize = 0;
    assert(events + we.take(0) =~= events);
    while q < vol
        invariant
            vol == dl * hl * wl,
            q <= vol,
            we.len() == vol,
            ds + dl <= in_dims[0],
            hs + hl <= in_dims[1],
            ws + wl <= in_dims[2],
            ds == adaptive_start(p.0, in_dims[0] as int, out_dims[0] as int),
            hs == adaptive_start(p.1, in_dims[1] as int, out_dims[1] as int),
            ws == adaptive_start(p.2, in_dims[2] as int, out_dims[2] as int),
            hl == adaptive_end(p.1, in_dims[1] as int, out_dims[1] as int) - hs,
            wl == adaptive_end(p.2, in_dims[2] as int, out_dims[2] as int) - ws,
            plane.len() == in_dims[0] * in_dims[1] * in_dims[2],
            in_dims[0] * in_dims[1] * in_dims[2] <= usize::MAX,
            forall|a: T, b: T| call_requires(*add_fn, (a, b)),
            we == adaptive_backward_window_events(in_dims, out_dims, p, d),
            scatters_to(*add_fn, init, events + we.take(q as int), plane@),
        decreases vol - q,
    {
        assert(hl > 0 && wl > 0) by (nonlinear_arith)
            requires q < vol, vol == dl * hl * wl, dl >= 0, hl >= 0, wl >= 0;
        let ghost before = plane@;
        let (a, b, c) = unflatten3_exec(q, dl, hl, wl);
        let l = offset3_exec(ds + a, hs + b, ws + c, Ghost(in_dims[0] as int), in_dims[1], in_dims[2]);
        let v = add_fn(plane[l], d);
        plane.set(l, v);
        proof {
            assert(we[q as int] == Option::Some((l as int, d)));
            lemma_scatters_to_push(*add_fn, init, events + we.take(q as int), before, we[q as int], plane@);
            assert((events + we.take(q as int)).push(we[q as int]) =~= events + we.take(q + 1));
        }
        q += 1;
    }
    assert(we.take(vol as int) =~= we);
    vol
}

fn adaptive_backward_plane<T: Copy, A: Fn(T, T) -> T, D: Fn(T, usize) -> T>(
    grad: &Vec<T>,
    gbase: usize,
    out_dims: [usize; 3],
    in_dims: [usize; 3],
    zero: T,
    add_fn: &A,
    div_fn: &D,
) -> (r: (Vec<T>, Ghost<Seq<T>>))
    requires
        in_dims[0] * in_dims[1] * in_dims[2] <= usize::MAX,
        out_dims[0] * out_dims[1] * out_dims[2] <= usize::MAX,
        out_dims[0] * in_dims[0] <= usize::MAX,
        out_dims[1] * in_dims[1] <= usize::MAX,
        out_dims[2] * in_dims[2] <= usize::MAX,
        gbase + out_dims[0] * out_dims[1] * out_dims[2] <= grad.len(),
        forall|a: T, b: T| call_requires(*add_fn, (a, b)),
        forall|a: T, n: usize| call_requires(*div_fn, (a, n)),
    ensures
        ({
            let so = out_dims[0] * out_dims[1] * out_dims[2];
            &&& r.1@.len() == so
            &&& forall|j: int| 0 <= j < so ==> call_ensures(
                *div_fn,
                (grad@[gbase + j], adaptive_backward_divisor(in_dims, out_dims,
                    unflatten3(j, out_dims[1] as int, out_dims[2] as int)) as usize),
                #[trigger] r.1@[j],
            )
            &&& scatters_to(
                *add_fn,
                Seq::new((in_dims[0] * in_dims[1] * in_dims[2]) as nat, |i: int| zero),
                adaptive_backward_events(in_dims, out_dims, r.1@, so),
                r.0@,
            )
        }),
{
    assert(in_dims[0] * in_dims[1] <= in_dims[0] * in_dims[1] * in_dims[2] || in_dims[2] == 0) by (nonlinear_arith)
        requires in_dims[2] >= 0, in_dims[0] * in_dims[1] >= 0;
    assert(out_dims[0] * out_dims[1] <= out_dims[0] * out_dims[1] * out_dims[2] || out_dims[2] == 0) by (nonlinear_arith)
        requires out_dims[2] >= 0, out_dims[0] * out_dims[1] >= 0;
    assert(in_dims[2] == 0 ==> in_dims[0] * in_dims[1] * in_dims[2] == 0) by (nonlinear_arith);
    assert(out_dims[2] == 0 ==> out_dims[0] * out_dims[1] * out_dims[2] == 0) by (nonlinear_arith);
    let spatial_in = if in_dims[2] == 0 { 0 } else { in_dims[0] * in_dims[1] * in_dims[2] };
    let spatial_out = if out_dims[2] == 0 { 0 } else { out_dims[0] * out_dims[1] * out_dims[2] };
    let ghost init = Seq::new(spatial_in as nat, |i: int| zero);
    let mut plane = filled(zero, spatial_in);
    let ghost mut ds: Seq<T> = Seq::empty();
    proof {
        lemma_scatters_to_empty(*add_fn, init);
    }
    let mut j: usize = 0;
    while j < spatial_out
        invariant
            j <= spatial_out,
            spatial_out == out_dims[0] * out_dims[1] * out_dims[2],
            spatial_in == in_dims[0] * in_dims[1] * in_dims[2],
            plane.len() == spatial_in,
            in_dims[0] * in_dims[1] * in_dims[2] <= usize::MAX,
            out_dims[0] * in_dims[0] <= usize::MAX,
            out_dims[1] * in_dims[1] <= usize::MAX,
            out_dims[2] * in_dims[2] <= usize::MAX,
            gbase + spatial_out <= grad.len(),
            forall|a: T, b: T| call_requires(*add_fn, (a, b)),
            forall|a: T, n: usize| call_requires(*div_fn, (a, n)),
            init == Seq::new(spatial_in as nat, |i: int| zero),
            ds.len() == j,
            forall|i: int| 0 <= i < j ==> call_ensures(
                *div_fn,
                (grad@[gbase + i], adaptive_backward_divisor(in_dims, out_dims,
                    unflatten3(i, out_dims[1] as int, out_dims[2] as int)) as usize),
                #[trigger] ds[i],
            ),
            scatters_to(*add_fn, init, adaptive_backward_events(in_dims, out_dims, ds, j as int), plane@),
        decreases spatial_out - j,
    {
        assert(out_dims[1] > 0 && out_dims[2] > 0) by (nonlinear_arith)
            requires j < spatial_out, spatial_out == out_dims[0] * out_dims[1] * out_dims[2];
        let (od, oh, ow) = unflatten3_exec(j, out_dims[0], out_dims[1], out_dims[2]);
        let (d0, d1) = adaptive_range(od, in_dims[0], out_dims[0]);
        let (h0, h1) = adaptive_range(oh, in_dims[1], out_dims[1]);
        let (w0, w1) = adaptive_range(ow, in_dims[2], out_dims[2]);
        let dl = d1 - d0;
        let hl = h1 - h0;
        let wl = w1 - w0;
        proof {
            assert(dl * hl <= in_dims[0] * in_dims[1]) by (nonlinear_arith)
                requires dl <= in_dims[0], hl <= in_dims[1], dl >= 0, hl >= 0;
            assert(dl * hl * wl <= in_dims[0] * in_dims[1] * in_dims[2]) by (nonlinear_arith)
                requires dl * hl <= in_dims[0] * in_dims[1], wl <= in_dims[2], wl >= 0, dl * hl >= 0;
            assert(wl > 0 ==> in_dims[0] * in_dims[1] <= in_dims[0] * in_dims[1] * in_dims[2]) by (nonlinear_arith)
                requires wl <= in_dims[2], in_dims[0] * in_dims[1] >= 0;
            assert(wl == 0 ==> dl * hl * wl == 0) by (nonlinear_arith);
        }
        let count = if wl == 0 { 0 } else { dl * hl * wl };
        let divisor = if count >= 1 { count } else { 1 };
        let distributed = div_fn(grad[gbase + j], divisor);
        let ghost ds2 = ds.push(distributed);
        proof {
            lemma_adaptive_backward_events_prefix(in_dims, out_dims, ds, ds2, j as int);
        }
        adaptive_backward_window(
            &mut plane,
            in_dims,
            out_dims,
            [od, oh, ow],
            distributed,
            add_fn,
            Ghost(init),
            Ghost(adaptive_backward_events(in_dims, out_dims, ds, j as int)),
        );
        proof {
            ds = ds2;
            assert(adaptive_backward_events(in_dims, out_dims, ds, j + 1)
                == adaptive_backward_events(in_dims, out_dims, ds, j as int)
                + adaptive_backward_window_events(in_dims, out_dims, (od as int, oh as int, ow as int), distributed));
        }
        j += 1;
    }
    (plane, Ghost(ds))
}

/// `dss[bc][j]` is a share `div_fn` may return for output gradient `j` of
/// plane `bc` and its window volume.
pub open spec fn adaptive_backward_shares<T, D: Fn(T, usize) -> T>(
    div_fn: D,
    grad: Seq<T>,
    planes: int,
    in_dims: [usize; 3],
    out_dims: [usize; 3],
    dss: Seq<Seq<T>>,
) -> bool {
    let so = out_dims[0] * out_dims[1] * out_dims[2];
    &&& dss.len() == planes
    &&& forall|bc: int| 0 <= bc < planes ==> (#[trigger] dss[bc]).len() == so
    &&& forall|bc: int, j: int| 0 <= bc < planes && 0 <= j < so ==> call_ensures(
        div_fn,
        (grad[bc * so + j], adaptive_backward_divisor(in_dims, out_dims,
            unflatten3(j, out_dims[1] as int, out_dims[2] as int)) as usize),
        #[trigger] dss[bc][j],
    )
}

/// Input element `l` of a plane whose output gradients were distributed as `ds`.
pub open spec fn adaptive_backward_value<T, A: Fn(T, T) -> T>(
    add_fn: A,
    zero: T,
    in_dims: [usize; 3],
    out_dims: [usize; 3],
    ds: Seq<T>,
    l: int,
    v: T,
) -> bool {
    folds_to(
        add_fn,
        zero,
        scatter_steps(adaptive_backward_events(in_dims, out_dims, ds, out_dims[0] * out_dims[1] * out_dims[2]), l),
        v,
    )
}

/// `out` is what adaptive-pool backward of `grad` onto an input of shape
/// `x_shape` can yield.
pub open spec fn adaptive_backward_result<T, A: Fn(T, T) -> T, D: Fn(T, usize) -> T>(
    add_fn: A,
    div_fn: D,
    zero: T,
    x_shape: Seq<usize>,
    grad_shape: Seq<usize>,
    grad: Seq<T>,
    out: Seq<T>,
) -> bool {
    exists|dss: Seq<Seq<T>>| {
        &&& #[trigger] adaptive_backward_shares(div_fn, grad, x_shape[0] * x_shape[1], dims_of(x_shape), dims_of(grad_shape), dss)
        &&& forall|p: int| 0 <= p < out.len() ==> #[trigger] adaptive_backward_value(add_fn, zero,
            dims_of(x_shape), dims_of(grad_shape),
            dss[p / (x_shape[2] * x_shape[3] * x_shape[4])],
            p % (x_shape[2] * x_shape[3] * x_shape[4]), out[p])
    }
}

/// The arguments on which adaptive-pool backward onto an input of shape
/// `x_shape` from a gradient of shape `grad_shape` is defined.
pub open spec fn adaptive_backward_ok(x_shape: Seq<usize>, grad_shape: Seq<usize>) -> bool {
    &&& backward_shapes_ok(x_shape, grad_shape)
    &&& grad_shape[2] * x_shape[2] <= usize::MAX
    &&& grad_shape[3] * x_shape[3] <= usize::MAX
    &&& grad_shape[4] * x_shape[4] <= usize::MAX
}

/// Generic adaptive average pool 3D backward: every output gradient is
/// divided (with `div_fn`) by its window volume and the share is added to
/// every position of its window box.
pub fn adaptive_avg_pool3d_backward_impl<T: Copy, A: Fn(T, T) -> T, D: Fn(T, usize) -> T>(
    x: HostTensor<T>,
    grad: HostTensor<T>,
    dtype: DType,
    zero: T,
    add_fn: &A,
    div_fn: &D,
) -> (r: HostTensor<T>)
    requires
        adaptive_backward_ok(x.shape@, grad.shape@),
        grad.wf(),
        forall|a: T, b: T| call_requires(*add_fn, (a, b)),
        forall|a: T, n: usize| call_requires(*div_fn, (a, n)),
    ensures
        r.shape@ == x.shape@,
        r.dtype == dtype,
        r.wf(),
        adaptive_backward_result(*add_fn, *div_fn, zero, x.shape@, grad.shape@, grad.data@, r.data@),
{
    proof {
        lemma_numel_5(x.shape@);
        lemma_numel_5(grad.shape@);
    }
    let ghost in3 = dims_of(x.shape@);
    let ghost out3 = dims_of(grad.shape@);
    let batch_size = x.shape[0];
    let channels = x.shape[1];
    let in_d = x.shape[2];
    let in_h = x.shape[3];
    let in_w = x.shape[4];
    let out_d = grad.shape[2];
    let out_h = grad.shape[3];
    let out_w = grad.shape[4];
    assert(out_d * out_h <= out_d * out_h * out_w || out_w == 0) by (nonlinear_arith)
        requires out_w >= 0, out_d * out_h >= 0;
    assert(in_d * in_h <= in_d * in_h * in_w || in_w == 0) by (nonlinear_arith)
        requires in_w >= 0, in_d * in_h >= 0;
    assert(in_w == 0 ==> in_d * in_h * in_w == 0) by (nonlinear_arith);
    assert(out_w == 0 ==> out_d * out_h * out_w == 0) by (nonlinear_arith);
    let spatial_in = if in_w == 0 { 0 } else { in_d * in_h * in_w };
    let spatial_out = if out_w == 0 { 0 } else { out_d * out_h * out_w };
    let bc_total = batch_size * channels;
    assert(grad.data.len() == bc_total * spatial_out) by (nonlinear_arith)
        requires
            grad.data.len() == batch_size * channels * out_d * out_h * out_w,
            bc_total == batch_size * channels,
            spatial_out == out_d * out_h * out_w;
    assert([in_d, in_h, in_w] =~= in3);
    assert([out_d, out_h, out_w] =~= out3);

    let mut output: Vec<T> = Vec::new();
    let ghost mut dss: Seq<Seq<T>> = Seq::empty();
    let mut bc: usize = 0;
    while bc < bc_total
        invariant
            bc <= bc_total,
            x.shape@.len() == 5,
            grad.shape@.len() == 5,
            in3 == [in_d, in_h, in_w],
            out3 == [out_d, out_h, out_w],
            in3 == dims_of(x.shape@),
            out3 == dims_of(grad.shape@),
            spatial_in == in_d * in_h * in_w,
            spatial_out == out_d * out_h * out_w,
            spatial_in <= usize::MAX,
            spatial_out <= usize::MAX,
            out_d * in_d <= usize::MAX,
            out_h * in_h <= usize::MAX,
            out_w * in_w <= usize::MAX,
            output.len() == bc * spatial_in,
            bc_total == batch_size * channels,
            batch_size == x.shape[0],
            channels == x.shape[1],
            bc_total * spatial_in <= usize::MAX,
            grad.data.len() == bc_total * spatial_out,
            forall|a: T, b: T| call_requires(*add_fn, (a, b)),
            forall|a: T, n: usize| call_requires(*div_fn, (a, n)),
            adaptive_backward_shares(*div_fn, grad.data@, bc as int, in3, out3, dss),
            forall|p: int| 0 <= p < output.len() ==> #[trigger] adaptive_backward_value(*add_fn, zero,
                in3, out3, dss[p / spatial_in as int], p % spatial_in as int, output@[p]),
        decreases bc_total - bc,
    {
        proof {
            assert((bc + 1) * spatial_out <= bc_total * spatial_out) by (nonlinear_arith)
                requires bc + 1 <= bc_total, spatial_out >= 0;
            assert((bc + 1) * spatial_out == bc * spatial_out + spatial_out) by (nonlinear_arith);
            assert((bc + 1) * spatial_in <= bc_total * spatial_in) by (nonlinear_arith)
                requires bc + 1 <= bc_total, spatial_in >= 0;
            assert((bc + 1) * spatial_in == bc * spatial_in + spatial_in) by (nonlinear_arith);
        }
        let gbase = bc * spatial_out;
        let (plane, Ghost(ds)) = adaptive_backward_plane(
            &grad.data, gbase, [out_d, out_h, out_w], [in_d, in_h, in_w], zero, add_fn, div_fn);
        let ghost dss2 = dss.push(ds);
        proof {
            assert forall|b: int, j: int| 0 <= b < bc + 1 && 0 <= j < spatial_out implies call_ensures(
                *div_fn,
                (grad.data@[b * spatial_out + j], adaptive_backward_divisor(in3, out3,
                    unflatten3(j, out3[1] as int, out3[2] as int)) as usize),
                #[trigger] dss2[b][j],
            ) by {
                if b < bc {
                    assert(dss2[b] == dss[b]);
                } else {
                    assert(dss2[b] == ds);
                }
            }
            assert forall|p: int| 0 <= p < output.len() implies #[trigger] adaptive_backward_value(*add_fn, zero,
                in3, out3, dss2[p / spatial_in as int], p % spatial_in as int, output@[p]) by {
                assert(adaptive_backward_value(*add_fn, zero,
                    in3, out3, dss[p / spatial_in as int], p % spatial_in as int, output@[p]));
                assert(spatial_in > 0) by (nonlinear_arith)
                    requires 0 <= p < bc * spatial_in, spatial_in >= 0;
                assert((p / (spatial_in as int)) < bc) by (nonlinear_arith)
                    requires 0 <= p < bc * spatial_in, spatial_in > 0;
            }
        }
        let mut l: usize = 0;
        while l < spatial_in
            invariant
                l <= spatial_in,
                x.shape@.len() == 5,
                grad.shape@.len() == 5,
                output.len() == bc * spatial_in + l,
                (bc + 1) * spatial_in <= usize::MAX,
                plane.len() == spatial_in,
                spatial_in == in_d * in_h * in_w,
                spatial_out == out_d * out_h * out_w,
                in3 == [in_d, in_h, in_w],
                out3 == [out_d, out_h, out_w],
                dss2[bc as int] == ds,
                scatters_to(*add_fn, Seq::new(spatial_in as nat, |i: int| zero),
                    adaptive_backward_events(in3, out3, ds, spatial_out as int), plane@),
                forall|p: int| 0 <= p < output.len() ==> #[trigger] adaptive_backward_value(*add_fn, zero,
                    in3, out3, dss2[p / spatial_in as int], p % spatial_in as int, output@[p]),
            decreases spatial_in - l,
        {
            output.push(plane[l]);
            proof {
                let p = bc * spatial_in + l;
                lemma_div_mod_offset(bc as int, l as int, spatial_in as int);
                assert(folds_to(*add_fn, Seq::new(spatial_in as nat, |i: int| zero)[l as int],
                    scatter_steps(adaptive_backward_events(in3, out3, ds, spatial_out as int), l as int),
                    plane@[l as int]));
                assert(adaptive_backward_value(*add_fn, zero, in3, out3,
                    dss2[p / spatial_in as int], p % spatial_in as int, output@[p]));
            }
            l += 1;
        }
        proof {
            dss = dss2;
        }
        bc += 1;
    }
    let out_shape = vec![batch_size, channels, in_d, in_h, in_w];
    proof {
        lemma_numel_5(out_shape@);
        assert(out_shape@ =~= x.shape@);
        assert(output.len() == batch_size * channels * in_d * in_h * in_w) by (nonlinear_arith)
            requires
                output.len() == bc_total * spatial_in,
                bc_total == batch_size * channels,
                spatial_in == in_d * in_h * in_w;
    }
    HostTensor::new(output, out_shape, dtype)
}

/// `out` is what max-pool backward of `grad` with `indices` onto an input of
/// shape `x_shape` can yield.
pub open spec fn max_backward_result<T, A: Fn(T, T) -> T>(
    add_fn: A,
    zero: T,
    x_shape: Seq<usize>,
    grad_shape: Seq<usize>,
    grad: Seq<T>,
    indices: Seq<i64>,
    out: Seq<T>,
) -> bool {
    forall|p: int| 0 <= p < out.len() ==> #[trigger] max_backward_value(add_fn, zero, x_shape, grad_shape, grad, indices, p, out[p])
}

/// Recorded indices name positions inside an input plane of `spatial_in` elements.
pub open spec fn indices_in_plane(indices: Seq<i64>, spatial_in: int) -> bool {
    forall|j: int| 0 <= j < indices.len() ==> #[trigger] indices[j] < spatial_in
}

/// 3D max pool backward, tagged f32.
pub fn max_pool3d_backward_f32<T: Copy, A: Fn(T, T) -> T>(
    x: HostTensor<T>,
    grad: HostTensor<T>,
    indices: HostTensor<i64>,
    zero: T,
    add_fn: &A,
) -> (r: HostTensor<T>)
    requires
        backward_shapes_ok(x.shape@, grad.shape@),
        grad.wf(),
        indices.shape@ == grad.shape@,
        indices.wf(),
        indices_in_plane(indices.data@, x.shape[2] * x.shape[3] * x.shape[4]),
        forall|a: T, b: T| call_requires(*add_fn, (a, b)),
    ensures
        r.shape@ == x.shape@,
        r.dtype == DType::F32,
        r.wf(),
        max_backward_result(*add_fn, zero, x.shape@, grad.shape@, grad.data@, indices.data@, r.data@),
{
    max_pool3d_backward_impl(x, grad, indices, DType::F32, zero, add_fn)
}

/// 3D average pool backward, tagged f32.
pub fn avg_pool3d_backward_f32<T: Copy, A: Fn(T, T) -> T, D: Fn(T, usize) -> T>(
    x: HostTensor<T>,
    grad: HostTensor<T>,
    kernel_size: [usize; 3],
    stride: [usize; 3],
    padding: [usize; 3],
    count_include_pad: bool,
    zero: T,
    add_fn: &A,
    div_fn: &D,
) -> (r: HostTensor<T>)
    requires
        backward_shapes_ok(x.shape@, grad.shape@),
        grad.wf(),
        avg_backward_args_ok(dims_of(x.shape@), dims_of(grad.shape@), kernel_size, padding),
        forall|a: T, b: T| call_requires(*add_fn, (a, b)),
        forall|a: T, n: usize| call_requires(*div_fn, (a, n)),
    ensures
        r.shape@ == x.shape@,
        r.dtype == DType::F32,
        r.wf(),
        avg_backward_result(*add_fn, *div_fn, zero, x.shape@, grad.shape@, kernel_size, stride, padding, count_include_pad, grad.data@, r.data@),
{
    avg_pool3d_backward_impl(x, grad, kernel_size, stride, padding, count_include_pad, DType::F32, zero, add_fn, div_fn)
}

/// 3D adaptive average pool backward, tagged f32.
pub fn adaptive_avg_pool3d_backward_f32<T: Copy, A: Fn(T, T) -> T, D: Fn(T, usize) -> T>(
    x: HostTensor<T>,
    grad: HostTensor<T>,
    zero: T,
    add_fn: &A,
    div_fn: &D,
) -> (r: HostTensor<T>)
    requires
        adaptive_backward_ok(x.shape@, grad.shape@),
        grad.wf(),
        forall|a: T, b: T| call_requires(*add_fn, (a, b)),
        forall|a: T, n: usize| call_requires(*div_fn, (a, n)),
    ensures
        r.shape@ == x.shape@,
        r.dtype == DType::F32,
        r.wf(),
        adaptive_backward_result(*add_fn, *div_fn, zero, x.shape@, grad.shape@, grad.data@, r.data@),
{
    adaptive_avg_pool3d_backward_impl(x, grad, DType::F32, zero, add_fn, div_fn)
}

/// 3D max pool backward, tagged f64.
pub fn max_pool3d_backward_f64<T: Copy, A: Fn(T, T) -> T>(
    x: HostTensor<T>,
    grad: HostTensor<T>,
    indices: HostTensor<i64>,
    zero: T,
    add_fn: &A,
) -> (r: HostTensor<T>)
    requires
        backward_shapes_ok(x.shape@, grad.shape@),
        grad.wf(),
        indices.shape@ == grad.shape@,
        indices.wf(),
        indices_in_plane(indices.data@, x.shape[2] * x.shape[3] * x.shape[4]),
        forall|a: T, b: T| call_requires(*add_fn, (a, b)),
    ensures
        r.shape@ == x.shape@,
        r.dtype == DType::F64,
        r.wf(),
        max_backward_result(*add_fn, zero, x.shape@, grad.shape@, grad.data@, indices.data@, r.data@),
{
    max_pool3d_backward_impl(x, grad, indices, DType::F64, zero, add_fn)
}

/// 3D average pool backward, tagged f64.
pub fn avg_pool3d_backward_f64<T: Copy, A: Fn(T, T) -> T, D: Fn(T, usize) -> T>(
    x: HostTensor<T>,
    grad: HostTensor<T>,
    kernel_size: [usize; 3],
    stride: [usize; 3],
    padding: [usize; 3],
    count_include_pad: bool,
    zero: T,
    add_fn: &A,
    div_fn: &D,
) -> (r: HostTensor<T>)
    requires
        backward_shapes_ok(x.shape@, grad.shape@),
        grad.wf(),
        avg_backward_args_ok(dims_of(x.shape@), dims_of(grad.shape@), kernel_size, padding),
        forall|a: T, b: T| call_requires(*add_fn, (a, b)),
        forall|a: T, n: usize| call_requires(*div_fn, (a, n)),
    ensures
        r.shape@ == x.shape@,
        r.dtype == DType::F64,
        r.wf(),
        avg_backward_result(*add_fn, *div_fn, zero, x.shape@, grad.shape@, kernel_size, stride, padding, count_include_pad, grad.data@, r.data@),
{
    avg_pool3d_backward_impl(x, grad, kernel_size, stride, padding, count_include_pad, DType::F64, zero, add_fn, div_fn)
}

/// 3D adaptive average pool backward, tagged f64.
pub fn adaptive_avg_pool3d_backward_f64<T: Copy, A: Fn(T, T) -> T, D: Fn(T, usize) -> T>(
    x: HostTensor<T>,
    grad: HostTensor<T>,
    zero: T,
    add_fn: &A,
    div_fn: &D,
) -> (r: HostTensor<T>)
    requires
        adaptive_backward_ok(x.shape@, grad.shape@),
        grad.wf(),
        forall|a: T, b: T| call_requires(*add_fn, (a, b)),
        forall|a: T, n: usize| call_requires(*div_fn, (a, n)),
    ensures
        r.shape@ == x.shape@,
        r.dtype == DType::F64,
        r.wf(),
        adaptive_backward_result(*add_fn, *div_fn, zero, x.shape@, grad.shape@, grad.data@, r.data@),
{
    adaptive_avg_pool3d_backward_impl(x, grad, DType::F64, zero, add_fn, div_fn)
}

/// 3D max pool backward, tagged f16.
pub fn max_pool3d_backward_f16<T: Copy, A: Fn(T, T) -> T>(
    x: HostTensor<T>,
    grad: HostTensor<T>,
    indices: HostTensor<i64>,
    zero: T,
    add_fn: &A,
) -> (r: HostTensor<T>)
    requires
        backward_shapes_ok(x.shape@, grad.shape@),
        grad.wf(),
        indices.shape@ == grad.shape@,
        indices.wf(),
        indices_in_plane(indices.data@, x.shape[2] * x.shape[3] * x.shape[4]),
        forall|a: T, b: T| call_requires(*add_fn, (a, b)),
    ensures
        r.shape@ == x.shape@,
        r.dtype == DType::F16,
        r.wf(),
        max_backward_result(*add_fn, zero, x.shape@, grad.shape@, grad.data@, indices.data@, r.data@),
{
    max_pool3d_backward_impl(x, grad, indices, DType::F16, zero, add_fn)
}

/// 3D average pool backward, tagged f16.
pub fn avg_pool3d_backward_f16<T: Copy, A: Fn(T, T) -> T, D: Fn(T, usize) -> T>(
    x: HostTensor<T>,
    grad: HostTensor<T>,
    kernel_size: [usize; 3],
    stride: [usize; 3],
    padding: [usize; 3],
    count_include_pad: bool,
    zero: T,
    add_fn: &A,
    div_fn: &D,
) -> (r: HostTensor<T>)
    requires
        backward_shapes_ok(x.shape@, grad.shape@),
        grad.wf(),
        avg_backward_args_ok(dims_of(x.shape@), dims_of(grad.shape@), kernel_size, padding),
        forall|a: T, b: T| call_requires(*add_fn, (a, b)),
        forall|a: T, n: usize| call_requires(*div_fn, (a, n)),
    ensures
        r.shape@ == x.shape@,
        r.dtype == DType::F16,
        r.wf(),
        avg_backward_result(*add_fn, *div_fn, zero, x.shape@, grad.shape@, kernel_size, stride, padding, count_include_pad, grad.data@, r.data@),
{
    avg_pool3d_backward_impl(x, grad, kernel_size, stride, padding, count_include_pad, DType::F16, zero, add_fn, div_fn)
}

/// 3D adaptive average pool backward, tagged f16.
pub fn adaptive_avg_pool3d_backward_f16<T: Copy, A: Fn(T, T) -> T, D: Fn(T, usize) -> T>(
    x: HostTensor<T>,
    grad: HostTensor<T>,
    zero: T,
    add_fn: &A,
    div_fn: &D,
) -> (r: HostTensor<T>)
    requires
        adaptive_backward_ok(x.shape@, grad.shape@),
        grad.wf(),
        forall|a: T, b: T| call_requires(*add_fn, (a, b)),
        forall|a: T, n: usize| call_requires(*div_fn, (a, n)),
    ensures
        r.shape@ == x.shape@,
        r.dtype == DType::F16,
        r.wf(),
        adaptive_backward_result(*add_fn, *div_fn, zero, x.shape@, grad.shape@, grad.data@, r.data@),
{
    adaptive_avg_pool3d_backward_impl(x, grad, DType::F16, zero, add_fn, div_fn)
}

/// 2D max pool backward for f32, using the indices recorded by the forward pass.
pub fn max_pool2d_backward_f32<T: Copy, A: Fn(T, T) -> T>(
    x: HostTensor<T>,
    grad: HostTensor<T>,
    indices: HostTensor<i64>,
    zero: T,
    add_fn: &A,
) -> (r: HostTensor<T>)
    requires
        x.shape@.len() == 4,
        grad.shape@.len() == 4,
        backward_shapes_ok(shape_2d_as_3d(x.shape@), shape_2d_as_3d(grad.shape@)),
        grad.wf(),
        indices.shape@ == grad.shape@,
        indices.wf(),
        indices_in_plane(indices.data@, x.shape[2] * x.shape[3]),
        forall|a: T, b: T| call_requires(*add_fn, (a, b)),
    ensures
        r.shape@ == x.shape@,
        r.dtype == DType::F32,
        r.wf(),
        max_backward_result(*add_fn, zero, shape_2d_as_3d(x.shape@), shape_2d_as_3d(grad.shape@), grad.data@, indices.data@, r.data@),
{
    proof {
        lemma_wf_2d_as_3d(grad.shape@);
        lemma_wf_2d_as_3d(indices.shape@);
        assert(1 * x.shape[2] * x.shape[3] == x.shape[2] * x.shape[3]) by (nonlinear_arith);
    }
    let ghost xs = x.shape@;
    let x_3d = expand_2d_to_3d(x);
    let grad_3d = expand_2d_to_3d(grad);
    let indices_3d = expand_2d_to_3d(indices);
    let result = max_pool3d_backward_f32(x_3d, grad_3d, indices_3d, zero, add_fn);
    proof {
        lemma_wf_squeeze_2d(result.shape@);
    }
    let r = squeeze_3d_to_2d(result);
    assert(r.shape@ =~= xs);
    r
}

/// 2D average pool backward for f32: computed as a 3D backward with a unit depth axis.
pub fn avg_pool2d_backward_f32<T: Copy, A: Fn(T, T) -> T, D: Fn(T, usize) -> T>(
    x: HostTensor<T>,
    grad: HostTensor<T>,
    kernel_size: [usize; 2],
    stride: [usize; 2],
    padding: [usize; 2],
    count_include_pad: bool,
    zero: T,
    add_fn: &A,
    div_fn: &D,
) -> (r: HostTensor<T>)
    requires
        x.shape@.len() == 4,
        grad.shape@.len() == 4,
        backward_shapes_ok(shape_2d_as_3d(x.shape@), shape_2d_as_3d(grad.shape@)),
        grad.wf(),
        avg_backward_args_ok(dims_of(shape_2d_as_3d(x.shape@)), dims_of(shape_2d_as_3d(grad.shape@)),
            [1usize, kernel_size[0], kernel_size[1]], [0usize, padding[0], padding[1]]),
        forall|a: T, b: T| call_requires(*add_fn, (a, b)),
        forall|a: T, n: usize| call_requires(*div_fn, (a, n)),
    ensures
        r.shape@ == x.shape@,
        r.dtype == DType::F32,
        r.wf(),
        avg_backward_result(*add_fn, *div_fn, zero, shape_2d_as_3d(x.shape@), shape_2d_as_3d(grad.shape@),
            [1usize, kernel_size[0], kernel_size[1]], [1usize, stride[0], stride[1]], [0usize, padding[0], padding[1]],
            count_include_pad, grad.data@, r.data@),
{
    proof {
        lemma_wf_2d_as_3d(grad.shape@);
    }
    let ghost xs = x.shape@;
    let x_3d = expand_2d_to_3d(x);
    let grad_3d = expand_2d_to_3d(grad);
    let result = avg_pool3d_backward_f32(
        x_3d,
        grad_3d,
        [1, kernel_size[0], kernel_size[1]],
        [1, stride[0], stride[1]],
        [0, padding[0], padding[1]],
        count_include_pad,
        zero,
        add_fn,
        div_fn,
    );
    proof {
        lemma_wf_squeeze_2d(result.shape@);
    }
    let r = squeeze_3d_to_2d(result);
    assert(r.shape@ =~= xs);
    r
}

/// 2D adaptive average pool backward for f32: computed as a 3D backward with a unit depth axis.
pub fn adaptive_avg_pool2d_backward_f32<T: Copy, A: Fn(T, T) -> T, D: Fn(T, usize) -> T>(
    x: HostTensor<T>,
    grad: HostTensor<T>,
    zero: T,
    add_fn: &A,
    div_fn: &D,
) -> (r: HostTensor<T>)
    requires
        x.shape@.len() == 4,
        grad.shape@.len() == 4,
        adaptive_backward_ok(shape_2d_as_3d(x.shape@), shape_2d_as_3d(grad.shape@)),
        grad.wf(),
        forall|a: T, b: T| call_requires(*add_fn, (a, b)),
        forall|a: T, n: usize| call_requires(*div_fn, (a, n)),
    ensures
        r.shape@ == x.shape@,
        r.dtype == DType::F32,
        r.wf(),
        adaptive_backward_result(*add_fn, *div_fn, zero, shape_2d_as_3d(x.shape@), shape_2d_as_3d(grad.shape@), grad.data@, r.data@),
{
    proof {
        lemma_wf_2d_as_3d(grad.shape@);
    }
    let ghost xs = x.shape@;
    let x_3d = expand_2d_to_3d(x);
    let grad_3d = expand_2d_to_3d(grad);
    let result = adaptive_avg_pool3d_backward_f32(x_3d, grad_3d, zero, add_fn, div_fn);
    proof {
        lemma_wf_squeeze_2d(result.shape@);
    }
    let r = squeeze_3d_to_2d(result);
    assert(r.shape@ =~= xs);
    r
}

/// 2D max pool backward for f64, using the indices recorded by the forward pass.
pub fn max_pool2d_backward_f64<T: Copy, A: Fn(T, T) -> T>(
    x: HostTensor<T>,
    grad: HostTensor<T>,
    indices: HostTensor<i64>,
    zero: T,
    add_fn: &A,
) -> (r: HostTensor<T>)
    requires
        x.shape@.len() == 4,
        grad.shape@.len() == 4,
        backward_shapes_ok(shape_2d_as_3d(x.shape@), shape_2d_as_3d(grad.shape@)),
        grad.wf(),
        indices.shape@ == grad.shape@,
        indices.wf(),
        indices_in_plane(indices.data@, x.shape[2] * x.shape[3]),
        forall|a: T, b: T| call_requires(*add_fn, (a, b)),
    ensures
        r.shape@ == x.shape@,
        r.dtype == DType::F64,
        r.wf(),
        max_backward_result(*add_fn, zero, shape_2d_as_3d(x.shape@), shape_2d_as_3d(grad.shape@), grad.data@, indices.data@, r.data@),
{
    proof {
        lemma_wf_2d_as_3d(grad.shape@);
        lemma_wf_2d_as_3d(indices.shape@);
        assert(1 * x.shape[2] * x.shape[3] == x.shape[2] * x.shape[3]) by (nonlinear_arith);
    }
    let ghost xs = x.shape@;
    let x_3d = expand_2d_to_3d(x);
    let grad_3d = expand_2d_to_3d(grad);
    let indices_3d = expand_2d_to_3d(indices);
    let result = max_pool3d_backward_f64(x_3d, grad_3d, indices_3d, zero, add_fn);
    proof {
        lemma_wf_squeeze_2d(result.shape@);
    }
    let r = squeeze_3d_to_2d(result);
    assert(r.shape@ =~= xs);
    r
}

/// 2D average pool backward for f64: computed as a 3D backward with a unit depth axis.
pub fn avg_pool2d_backward_f64<T: Copy, A: Fn(T, T) -> T, D: Fn(T, usize) -> T>(
    x: HostTensor<T>,
    grad: HostTensor<T>,
    kernel_size: [usize; 2],
    stride: [usize; 2],
    padding: [usize; 2],
    count_include_pad: bool,
    zero: T,
    add_fn: &A,
    div_fn: &D,
) -> (r: HostTensor<T>)
    requires
        x.shape@.len() == 4,
        grad.shape@.len() == 4,
        backward_shapes_ok(shape_2d_as_3d(x.shape@), shape_2d_as_3d(grad.shape@)),
        grad.wf(),
        avg_backward_args_ok(dims_of(shape_2d_as_3d(x.shape@)), dims_of(shape_2d_as_3d(grad.shape@)),
            [1usize, kernel_size[0], kernel_size[1]], [0usize, padding[0], padding[1]]),
        forall|a: T, b: T| call_requires(*add_fn, (a, b)),
        forall|a: T, n: usize| call_requires(*div_fn, (a, n)),
    ensures
        r.shape@ == x.shape@,
        r.dtype == DType::F64,
        r.wf(),
        avg_backward_result(*add_fn, *div_fn, zero, shape_2d_as_3d(x.shape@), shape_2d_as_3d(grad.shape@),
            [1usize, kernel_size[0], kernel_size[1]], [1usize, stride[0], stride[1]], [0usize, padding[0], padding[1]],
            count_include_pad, grad.data@, r.data@),
{
    proof {
        lemma_wf_2d_as_3d(grad.shape@);
    }
    let ghost xs = x.shape@;
    let x_3d = expand_2d_to_3d(x);
    let grad_3d = expand_2d_to_3d(grad);
    let result = avg_pool3d_backward_f64(
        x_3d,
        grad_3d,
        [1, kernel_size[0], kernel_size[1]],
        [1, stride[0], stride[1]],
        [0, padding[0], padding[1]],
        count_include_pad,
        zero,
        add_fn,
        div_fn,
    );
    proof {
        lemma_wf_squeeze_2d(result.shape@);
    }
    let r = squeeze_3d_to_2d(result);
    assert(r.shape@ =~= xs);
    r
}

/// 2D adaptive average pool backward for f64: computed as a 3D backward with a unit depth axis.
pub fn adaptive_avg_pool2d_backward_f64<T: Copy, A: Fn(T, T) -> T, D: Fn(T, usize) -> T>(
    x: HostTensor<T>,
    grad: HostTensor<T>,
    zero: T,
    add_fn: &A,
    div_fn: &D,
) -> (r: HostTensor<T>)
    requires
        x.shape@.len() == 4,
        grad.shape@.len() == 4,
        adaptive_backward_ok(shape_2d_as_3d(x.shape@), shape_2d_as_3d(grad.shape@)),
        grad.wf(),
        forall|a: T, b: T| call_requires(*add_fn, (a, b)),
        forall|a: T, n: usize| call_requires(*div_fn, (a, n)),
    ensures
        r.shape@ == x.shape@,
        r.dtype == DType::F64,
        r.wf(),
        adaptive_backward_result(*add_fn, *div_fn, zero, shape_2d_as_3d(x.shape@), shape_2d_as_3d(grad.shape@), grad.data@, r.data@),
{
    proof {
        lemma_wf_2d_as_3d(grad.shape@);
    }
    let ghost xs = x.shape@;
    let x_3d = expand_2d_to_3d(x);
    let grad_3d = expand_2d_to_3d(grad);
    let result = adaptive_avg_pool3d_backward_f64(x_3d, grad_3d, zero, add_fn, div_fn);
    proof {
        lemma_wf_squeeze_2d(result.shape@);
    }
    let r = squeeze_3d_to_2d(result);
    assert(r.shape@ =~= xs);
    r
}

/// 2D max pool backward for f16, using the indices recorded by the forward pass.
pub fn max_pool2d_backward_f16<T: Copy, A: Fn(T, T) -> T>(
    x: HostTensor<T>,
    grad: HostTensor<T>,
    indices: HostTensor<i64>,
    zero: T,
    add_fn: &A,
) -> (r: HostTensor<T>)
    requires
        x.shape@.len() == 4,
        grad.shape@.len() == 4,
        backward_shapes_ok(shape_2d_as_3d(x.shape@), shape_2d_as_3d(grad.shape@)),
        grad.wf(),
        indices.shape@ == grad.shape@,
        indices.wf(),
        indices_in_plane(indices.data@, x.shape[2] * x.shape[3]),
        forall|a: T, b: T| call_requires(*add_fn, (a, b)),
    ensures
        r.shape@ == x.shape@,
        r.dtype == DType::F16,
        r.wf(),
        max_backward_result(*add_fn, zero, shape_2d_as_3d(x.shape@), shape_2d_as_3d(grad.shape@), grad.data@, indices.data@, r.data@),
{
    proof {
        lemma_wf_2d_as_3d(grad.shape@);
        lemma_wf_2d_as_3d(indices.shape@);
        assert(1 * x.shape[2] * x.shape[3] == x.shape[2] * x.shape[3]) by (nonlinear_arith);
    }
    let ghost xs = x.shape@;
    let x_3d = expand_2d_to_3d(x);
    let grad_3d = expand_2d_to_3d(grad);
    let indices_3d = expand_2d_to_3d(indices);
    let result = max_pool3d_backward_f16(x_3d, grad_3d, indices_3d, zero, add_fn);
    proof {
        lemma_wf_squeeze_2d(result.shape@);
    }
    let r = squeeze_3d_to_2d(result);
    assert(r.shape@ =~= xs);
    r
}

/// 2D average pool backward for f16: computed as a 3D backward with a unit depth axis.
pub fn avg_pool2d_backward_f16<T: Copy, A: Fn(T, T) -> T, D: Fn(T, usize) -> T>(
    x: HostTensor<T>,
    grad: HostTensor<T>,
    kernel_size: [usize; 2],
    stride: [usize; 2],
    padding: [usize; 2],
    count_include_pad: bool,
    zero: T,
    add_fn: &A,
    div_fn: &D,
) -> (r: HostTensor<T>)
    requires
        x.shape@.len() == 4,
        grad.shape@.len() == 4,
        backward_shapes_ok(shape_2d_as_3d(x.shape@), shape_2d_as_3d(grad.shape@)),
        grad.wf(),
        avg_backward_args_ok(dims_of(shape_2d_as_3d(x.shape@)), dims_of(shape_2d_as_3d(grad.shape@)),
            [1usize, kernel_size[0], kernel_size[1]], [0usize, padding[0], padding[1]]),
        forall|a: T, b: T| call_requires(*add_fn, (a, b)),
        forall|a: T, n: usize| call_requires(*div_fn, (a, n)),
    ensures
        r.shape@ == x.shape@,
        r.dtype == DType::F16,
        r.wf(),
        avg_backward_result(*add_fn, *div_fn, zero, shape_2d_as_3d(x.shape@), shape_2d_as_3d(grad.shape@),
            [1usize, kernel_size[0], kernel_size[1]], [1usize, stride[0], stride[1]], [0usize, padding[0], padding[1]],
            count_include_pad, grad.data@, r.data@),
{
    proof {
        lemma_wf_2d_as_3d(grad.shape@);
    }
    let ghost xs = x.shape@;
    let x_3d = expand_2d_to_3d(x);
    let grad_3d = expand_2d_to_3d(grad);
    let result = avg_pool3d_backward_f16(
        x_3d,
        grad_3d,
        [1, kernel_size[0], kernel_size[1]],
        [1, stride[0], stride[1]],
        [0, padding[0], padding[1]],
        count_include_pad,
        zero,
        add_fn,
        div_fn,
    );
    proof {
        lemma_wf_squeeze_2d(result.shape@);
    }
    let r = squeeze_3d_to_2d(result);
    assert(r.shape@ =~= xs);
    r
}

/// 2D adaptive average pool backward for f16: computed as a 3D backward with a unit depth axis.
pub fn adaptive_avg_pool2d_backward_f16<T: Copy, A: Fn(T, T) -> T, D: Fn(T, usize) -> T>(
    x: HostTensor<T>,
    grad: HostTensor<T>,
    zero: T,
    add_fn: &A,
    div_fn: &D,
) -> (r: HostTensor<T>)
    requires
        x.shape@.len() == 4,
        grad.shape@.len() == 4,
        adaptive_backward_ok(shape_2d_as_3d(x.shape@), shape_2d_as_3d(grad.shape@)),
        grad.wf(),
        forall|a: T, b: T| call_requires(*add_fn, (a, b)),
        forall|a: T, n: usize| call_requires(*div_fn, (a, n)),
    ensures
        r.shape@ == x.shape@,
        r.dtype == DType::F16,
        r.wf(),
        adaptive_backward_result(*add_fn, *div_fn, zero, shape_2d_as_3d(x.shape@), shape_2d_as_3d(grad.shape@), grad.data@, r.data@),
{
    proof {
        lemma_wf_2d_as_3d(grad.shape@);
    }
    let ghost xs = x.shape@;
    let x_3d = expand_2d_to_3d(x);
    let grad_3d = expand_2d_to_3d(grad);
    let result = adaptive_avg_pool3d_backward_f16(x_3d, grad_3d, zero, add_fn, div_fn);
    proof {
        lemma_wf_squeeze_2d(result.shape@);
    }
    let r = squeeze_3d_to_2d(result);
    assert(r.shape@ =~= xs);
    r
}

/// The bf16 variant of a backward result: `out` narrows what the f32
/// backward of the widened gradient yields.
pub open spec fn narrowed<S, T, U: Fn(S) -> T, N: Fn(T) -> S>(
    to_f32: U,
    from_f32: N,
    grad: Seq<S>,
    out: Seq<S>,
    result: spec_fn(Seq<T>, Seq<T>) -> bool,
) -> bool {
    exists|wide_grad: Seq<T>, wide_out: Seq<T>| {
        &&& converted(to_f32, grad, wide_grad)
        &&& #[trigger] result(wide_grad, wide_out)
        &&& converted(from_f32, wide_out, out)
    }
}

/// 2D max pool backward for bf16: the gradient is widened with `to_f32`,
/// scattered as f32, and the result narrowed with `from_f32`.
pub fn max_pool2d_backward_bf16<S: Copy, T: Copy, A: Fn(T, T) -> T, U: Fn(S) -> T, N: Fn(T) -> S>(
    x: HostTensor<S>,
    grad: HostTensor<S>,
    indices: HostTensor<i64>,
    zero: T,
    add_fn: &A,
    to_f32: &U,
    from_f32: &N,
) -> (r: HostTensor<S>)
    requires
        x.shape@.len() == 4,
        grad.shape@.len() == 4,
        backward_shapes_ok(shape_2d_as_3d(x.shape@), shape_2d_as_3d(grad.shape@)),
        grad.wf(),
        indices.shape@ == grad.shape@,
        indices.wf(),
        indices_in_plane(indices.data@, x.shape[2] * x.shape[3]),
        forall|a: T, b: T| call_requires(*add_fn, (a, b)),
        forall|a: S| call_requires(*to_f32, (a,)),
        forall|a: T| call_requires(*from_f32, (a,)),
    ensures
        r.shape@ == x.shape@,
        r.dtype == DType::BF16,
        r.wf(),
        narrowed(*to_f32, *from_f32, grad.data@, r.data@,
            |g: Seq<T>, o: Seq<T>| max_backward_result(*add_fn, zero, shape_2d_as_3d(x.shape@), shape_2d_as_3d(grad.shape@), g, indices.data@, o)),
{
    let x_f32 = convert_bf16_to_f32(&x, to_f32);
    let grad_f32 = convert_bf16_to_f32(&grad, to_f32);
    let ghost gw = grad_f32.data@;
    let ghost ind = indices.data@;
    let result_f32 = max_pool2d_backward_f32(x_f32, grad_f32, indices, zero, add_fn);
    let r = convert_f32_to_bf16(&result_f32, from_f32);
    proof {
        lemma_wf_2d_as_3d(r.shape@);
        let f = |g: Seq<T>, o: Seq<T>| max_backward_result(*add_fn, zero, shape_2d_as_3d(x.shape@), shape_2d_as_3d(grad.shape@), g, ind, o);
        assert(f(gw, result_f32.data@));
    }
    r
}

/// 2D average pool backward for bf16: the gradient is widened with
/// `to_f32`, distributed as f32, and the result narrowed with `from_f32`.
pub fn avg_pool2d_backward_bf16<S: Copy, T: Copy, A: Fn(T, T) -> T, D: Fn(T, usize) -> T, U: Fn(S) -> T, N: Fn(T) -> S>(
    x: HostTensor<S>,
    grad: HostTensor<S>,
    kernel_size: [usize; 2],
    stride: [usize; 2],
    padding: [usize; 2],
    count_include_pad: bool,
    zero: T,
    add_fn: &A,
    div_fn: &D,
    to_f32: &U,
    from_f32: &N,
) -> (r: HostTensor<S>)
    requires
        x.shape@.len() == 4,
        grad.shape@.len() == 4,
        backward_shapes_ok(shape_2d_as_3d(x.shape@), shape_2d_as_3d(grad.shape@)),
        grad.wf(),
        avg_backward_args_ok(dims_of(shape_2d_as_3d(x.shape@)), dims_of(shape_2d_as_3d(grad.shape@)),
            [1usize, kernel_size[0], kernel_size[1]], [0usize, padding[0], padding[1]]),
        forall|a: T, b: T| call_requires(*add_fn, (a, b)),
        forall|a: T, n: usize| call_requires(*div_fn, (a, n)),
        forall|a: S| call_requires(*to_f32, (a,)),
        forall|a: T| call_requires(*from_f32, (a,)),
    ensures
        r.shape@ == x.shape@,
        r.dtype == DType::BF16,
        r.wf(),
        narrowed(*to_f32, *from_f32, grad.data@, r.data@,
            |g: Seq<T>, o: Seq<T>| avg_backward_result(*add_fn, *div_fn, zero, shape_2d_as_3d(x.shape@), shape_2d_as_3d(grad.shape@),
                [1usize, kernel_size[0], kernel_size[1]], [1usize, stride[0], stride[1]], [0usize, padding[0], padding[1]],
                count_include_pad, g, o)),
{
    let x_f32 = convert_bf16_to_f32(&x, to_f32);
    let grad_f32 = convert_bf16_to_f32(&grad, to_f32);
    let ghost gw = grad_f32.data@;
    let result_f32 = avg_pool2d_backward_f32(x_f32, grad_f32, kernel_size, stride, padding, count_include_pad, zero, add_fn, div_fn);
    let r = convert_f32_to_bf16(&result_f32, from_f32);
    proof {
        let f = |g: Seq<T>, o: Seq<T>| avg_backward_result(*add_fn, *div_fn, zero, shape_2d_as_3d(x.shape@), shape_2d_as_3d(grad.shape@),
            [1usize, kernel_size[0], kernel_size[1]], [1usize, stride[0], stride[1]], [0usize, padding[0], padding[1]],
            count_include_pad, g, o);
        assert(f(gw, result_f32.data@));
    }
    r
}

/// 2D adaptive average pool backward for bf16: the gradient is widened with
/// `to_f32`, distributed as f32, and the result narrowed with `from_f32`.
pub fn adaptive_avg_pool2d_backward_bf16<S: Copy, T: Copy, A: Fn(T, T) -> T, D: Fn(T, usize) -> T, U: Fn(S) -> T, N: Fn(T) -> S>(
    x: HostTensor<S>,
    grad: HostTensor<S>,
    zero: T,
    add_fn: &A,
    div_fn: &D,
    to_f32: &U,
    from_f32: &N,
) -> (r: HostTensor<S>)
    requires
        x.shape@.len() == 4,
        grad.shape@.len() == 4,
        adaptive_backward_ok(shape_2d_as_3d(x.shape@), shape_2d_as_3d(grad.shape@)),
        grad.wf(),
        forall|a: T, b: T| call_requires(*add_fn, (a, b)),
        forall|a: T, n: usize| call_requires(*div_fn, (a, n)),
        forall|a: S| call_requires(*to_f32, (a,)),
        forall|a: T| call_requires(*from_f32, (a,)),
    ensures
        r.shape@ == x.shape@,
        r.dtype == DType::BF16,
        r.wf(),
        narrowed(*to_f32, *from_f32, grad.data@, r.data@,
            |g: Seq<T>, o: Seq<T>| adaptive_backward_result(*add_fn, *div_fn, zero, shape_2d_as_3d(x.shape@), shape_2d_as_3d(grad.shape@), g, o)),
{
    let x_f32 = convert_bf16_to_f32(&x, to_f32);
    let grad_f32 = convert_bf16_to_f32(&grad, to_f32);
    let ghost gw = grad_f32.data@;
    let result_f32 = adaptive_avg_pool2d_backward_f32(x_f32, grad_f32, zero, add_fn, div_fn);
    let r = convert_f32_to_bf16(&result_f32, from_f32);
    proof {
        let f = |g: Seq<T>, o: Seq<T>| adaptive_backward_result(*add_fn, *div_fn, zero, shape_2d_as_3d(x.shape@), shape_2d_as_3d(grad.shape@), g, o);
        assert(f(gw, result_f32.data@));
    }
    r
}


/// Average-pool backward spreads each output gradient over the window the
/// forward pass averaged into that output, divided by the forward pass's
/// divisor: its events go, in kernel order, exactly to the input positions
/// the forward steps read. This holds in floor and ceil mode alike.
pub proof fn lemma_avg_backward_is_forward_window<T>(
    x: Seq<T>,
    base: int,
    in_dims: [usize; 3],
    kernel: [usize; 3],
    stride: [usize; 3],
    padding: [usize; 3],
    pos: (int, int, int),
    count_include_pad: bool,
    d: T,
)
    ensures
        avg_backward_divisor(in_dims, kernel, stride, padding, pos, count_include_pad)
            == avg_divisor(in_dims, kernel, stride, padding, pos, count_include_pad),
        avg_backward_window_events(in_dims, kernel, stride, padding, pos, d).len()
            == avg_window_steps(x, base, in_dims, kernel, stride, padding, pos).len(),
        forall|q: int|
            0 <= q < avg_window_steps(x, base, in_dims, kernel, stride, padding, pos).len() ==> match (
                #[trigger] avg_backward_window_events(in_dims, kernel, stride, padding, pos, d)[q],
                avg_window_steps(x, base, in_dims, kernel, stride, padding, pos)[q],
            ) {
                (Option::Some(e), Option::Some(v)) => e.1 == d && v == x[base + e.0],
                (Option::None, Option::None) => true,
                _ => false,
            },
{
}

/// Adaptive-pool backward spreads each output gradient over exactly the
/// window the forward pass averaged into that output, in the same order,
/// and divides it by the forward pass's divisor, which is the number of
/// positions it is spread over (so each gradient is handed out whole).
pub proof fn lemma_adaptive_backward_is_forward_window<T>(
    x: Seq<T>,
    base: int,
    in_dims: [usize; 3],
    out_dims: [usize; 3],
    pos: (int, int, int),
    d: T,
)
    requires
        in_dims[0] > 0 && in_dims[1] > 0 && in_dims[2] > 0,
        0 <= pos.0 < out_dims[0] && 0 <= pos.1 < out_dims[1] && 0 <= pos.2 < out_dims[2],
    ensures
        adaptive_backward_divisor(in_dims, out_dims, pos) == adaptive_window_volume(in_dims, out_dims, pos),
        adaptive_backward_window_events(in_dims, out_dims, pos, d).len() == adaptive_window_volume(in_dims, out_dims, pos),
        adaptive_window_steps(x, base, in_dims, out_dims, pos).len() == adaptive_window_volume(in_dims, out_dims, pos),
        forall|q: int|
            0 <= q < adaptive_window_volume(in_dims, out_dims, pos) ==> match (
                #[trigger] adaptive_backward_window_events(in_dims, out_dims, pos, d)[q],
                adaptive_window_steps(x, base, in_dims, out_dims, pos)[q],
            ) {
                (Option::Some(e), Option::Some(v)) => e.1 == d && v == x[base + e.0],
                _ => false,
            },
{
    lemma_adaptive_window_bounds(pos.0, in_dims[0] as int, out_dims[0] as int);
    lemma_adaptive_window_bounds(pos.1, in_dims[1] as int, out_dims[1] as int);
    lemma_adaptive_window_bounds(pos.2, in_dims[2] as int, out_dims[2] as int);
    let a = adaptive_end(pos.0, in_dims[0] as int, out_dims[0] as int) - adaptive_start(pos.0, in_dims[0] as int, out_dims[0] as int);
    let b = adaptive_end(pos.1, in_dims[1] as int, out_dims[1] as int) - adaptive_start(pos.1, in_dims[1] as int, out_dims[1] as int);
    let c = adaptive_end(pos.2, in_dims[2] as int, out_dims[2] as int) - adaptive_start(pos.2, in_dims[2] as int, out_dims[2] as int);
    assert(a * b * c >= 1) by (nonlinear_arith)
        requires a >= 1, b >= 1, c >= 1;
}

} // verus!
