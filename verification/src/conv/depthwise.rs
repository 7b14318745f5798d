//! Depthwise convolution: one filter per channel, no channel mixing. Each
//! `(batch, channel)` plane is accumulated directly from the input, with no
//! layout change and no matrix product.
use vstd::prelude::*;
use crate::tensor::{DType, HostTensor, shape_numel, lemma_numel_5};
use crate::fold::macs_to;
use crate::arith::{lemma_offset2, lemma_div_mod_offset, lemma_mul_nonneg};
use crate::pool::backward::filled;
use vstd::slice::slice_subrange;
use super::{
    ConvOptions, conv_geom, plane_of, biased, bias_data, conv2d_in_3d_ok, is_depthwise, calculate_conv_output_size,
    out_ranges, add_bias, conv_out_len,
};
use super::plane::{PlaneGeom, out_steps, plane_tap, plane_geom, plane_ok, plane_accumulated, conv_plane_accumulate, rows};

verus! {

/// Output element `i` of a depthwise convolution before the bias: the
/// accumulation, from `zero`, of input plane `i / out_spatial` with the
/// kernel of its channel, at position `i % out_spatial`.
pub open spec fn depthwise_acc<T, M: Fn(T, T, T) -> T>(
    mac: M,
    zero: T,
    x: Seq<T>,
    w: Seq<T>,
    g: PlaneGeom,
    channels: int,
    i: int,
    v: T,
) -> bool {
    let out_sp = g.out_h * g.out_w;
    let bc = i / out_sp;
    macs_to(
        mac,
        zero,
        out_steps(plane_of(x, bc, g.in_h * g.in_w), plane_of(w, bc % channels, g.kernel_h * g.kernel_w), g, i % out_sp),
        v,
    )
}

/// Output element `i` of a depthwise convolution is `r`: its accumulation
/// plus the bias of its channel.
pub open spec fn depthwise_elem<T, M: Fn(T, T, T) -> T, A: Fn(T, T) -> T>(
    mac: M,
    add: A,
    zero: T,
    x: Seq<T>,
    w: Seq<T>,
    bias: Option<Seq<T>>,
    g: PlaneGeom,
    channels: int,
    i: int,
    r: T,
) -> bool {
    exists|v: T|
        #[trigger] depthwise_acc(mac, zero, x, w, g, channels, i, v) && biased(add, bias, (i / (g.out_h * g.out_w)) % channels, v, r)
}

/// `out` is a depthwise convolution of `x` with `w`: every element is its
/// channel's kernel accumulated over its input plane, plus the channel's bias.
pub open spec fn depthwise_result<T, M: Fn(T, T, T) -> T, A: Fn(T, T) -> T>(
    mac: M,
    add: A,
    zero: T,
    x: Seq<T>,
    x_shape: Seq<usize>,
    w: Seq<T>,
    w_shape: Seq<usize>,
    bias: Option<Seq<T>>,
    options: ConvOptions<3>,
    out: Seq<T>,
) -> bool {
    let g = conv_geom(x_shape, w_shape, options);
    let channels = x_shape[1] as int;
    let out_sp = g.out_h * g.out_w;
    &&& out.len() == x_shape[0] * channels * out_sp
    &&& forall|i: int| 0 <= i < out.len() ==> #[trigger] depthwise_elem(mac, add, zero, x, w, bias, g, channels, i, out[i])
}

/// A plane geometry that differs from another only in the row counts has
/// the same taps, provided the input row counts agree or the input rows are
/// empty.
pub proof fn lemma_steps_same_geom<T>(x: Seq<T>, w: Seq<T>, g1: PlaneGeom, g2: PlaneGeom, p: int)
    requires
        g1.kernel_h == g2.kernel_h && g1.kernel_w == g2.kernel_w && g1.in_w == g2.in_w && g1.out_w == g2.out_w,
        g1.stride_h == g2.stride_h && g1.stride_w == g2.stride_w && g1.pad_h == g2.pad_h && g1.pad_w == g2.pad_w,
        g1.dilation_h == g2.dilation_h && g1.dilation_w == g2.dilation_w,
        g1.in_h == g2.in_h || g1.in_w == 0,
    ensures
        out_steps(x, w, g1, p) == out_steps(x, w, g2, p),
{
    assert(out_steps(x, w, g1, p) =~= out_steps(x, w, g2, p));
}

/// The geometry `conv_plane_accumulate` derives from whole planes is the
/// convolution's, up to the input row count of empty rows.
pub proof fn lemma_plane_geom_of(x_shape: Seq<usize>, w_shape: Seq<usize>, options: ConvOptions<3>)
    requires
        x_shape.len() == 5,
        w_shape.len() == 5,
        super::conv_axis_ok(w_shape[3] as int, options.stride[1] as int, options.padding[1] as int, options.dilation[1] as int, x_shape[3] as int),
        super::conv_axis_ok(w_shape[4] as int, options.stride[2] as int, options.padding[2] as int, options.dilation[2] as int, x_shape[4] as int),
    ensures
        ({
            let g = conv_geom(x_shape, w_shape, options);
            let g2 = plane_geom((g.out_h * g.out_w) as int, (g.in_h * g.in_w) as int, g.kernel_h, g.kernel_w, g.in_w,
                g.out_w, g.stride_h, g.stride_w, g.pad_h, g.pad_w, g.dilation_h, g.dilation_w);
            &&& g.out_h >= 1
            &&& g.out_w >= 1
            &&& g2.out_h == g.out_h
            &&& g2.kernel_h == g.kernel_h && g2.kernel_w == g.kernel_w && g2.in_w == g.in_w && g2.out_w == g.out_w
            &&& g2.stride_h == g.stride_h && g2.stride_w == g.stride_w && g2.pad_h == g.pad_h && g2.pad_w == g.pad_w
            &&& g2.dilation_h == g.dilation_h && g2.dilation_w == g.dilation_w
            &&& (g.in_w > 0 ==> g2 == g)
            &&& (g.in_w == 0 ==> g2.in_h == 0)
        }),
{
    let g = conv_geom(x_shape, w_shape, options);
    let oh = conv_out_len(w_shape[3] as int, options.stride[1] as int, options.padding[1] as int, options.dilation[1] as int, x_shape[3] as int);
    let ow = conv_out_len(w_shape[4] as int, options.stride[2] as int, options.padding[2] as int, options.dilation[2] as int, x_shape[4] as int);
    let nh = x_shape[3] + 2 * options.padding[1] - crate::pool::effective_kernel(w_shape[3] as int, options.dilation[1] as int);
    let nw = x_shape[4] + 2 * options.padding[2] - crate::pool::effective_kernel(w_shape[4] as int, options.dilation[2] as int);
    assert(nh / (options.stride[1] as int) >= 0) by (nonlinear_arith)
        requires nh >= 0, options.stride[1] >= 1;
    assert(nw / (options.stride[2] as int) >= 0) by (nonlinear_arith)
        requires nw >= 0, options.stride[2] >= 1;
    assert(nh / (options.stride[1] as int) <= nh) by (nonlinear_arith)
        requires nh >= 0, options.stride[1] >= 1;
    assert(nw / (options.stride[2] as int) <= nw) by (nonlinear_arith)
        requires nw >= 0, options.stride[2] >= 1;
    assert(oh >= 1 && oh <= usize::MAX);
    assert(ow >= 1 && ow <= usize::MAX);
    lemma_div_mod_offset(g.out_h as int, 0, g.out_w as int);
    if g.in_w > 0 {
        lemma_div_mod_offset(g.in_h as int, 0, g.in_w as int);
    }
    lemma_mul_nonneg(g.in_h as int, g.in_w as int);
}

/// Depthwise conv3d: one filter per channel, no channel mixing.
///
/// Applies to canonical depthwise convolutions (`groups == c_in == c_out`,
/// one channel per group) over a trivial depth axis, as
/// `should_use_depthwise_conv` selects them. A bias must hold one element
/// per channel.
pub fn conv3d_depthwise_impl<T: Copy, M: Fn(T, T, T) -> T, A: Fn(T, T) -> T>(
    x: HostTensor<T>,
    weight: HostTensor<T>,
    bias: Option<HostTensor<T>>,
    options: &ConvOptions<3>,
    dtype: DType,
    zero: T,
    mac: &M,
    add_fn: &A,
) -> (r: HostTensor<T>)
    requires
        x.wf(),
        weight.wf(),
        conv2d_in_3d_ok(x.shape@, weight.shape@, *options, x.shape@[1] as int),
        is_depthwise(x.shape@, weight.shape@, *options),
        match bias {
            Option::Some(b) => b.data@.len() == x.shape@[1],
            Option::None => true,
        },
        forall|a: T, b: T, c: T| call_requires(*mac, (a, b, c)),
        forall|a: T, b: T| call_requires(*add_fn, (a, b)),
    ensures
        r.shape@ == seq![
            x.shape@[0],
            x.shape@[1],
            1usize,
            conv_geom(x.shape@, weight.shape@, *options).out_h,
            conv_geom(x.shape@, weight.shape@, *options).out_w,
        ],
        r.dtype == dtype,
        r.wf(),
        depthwise_result(*mac, *add_fn, zero, x.data@, x.shape@, weight.data@, weight.shape@, bias_data(bias), *options, r.data@),
{
    let ghost g = conv_geom(x.shape@, weight.shape@, *options);
    let ghost xs = x.data@;
    let ghost ws = weight.data@;
    let batch_size = x.shape[0];
    let channels = x.shape[1];
    let in_h = x.shape[3];
    let in_w = x.shape[4];
    let kernel_h = weight.shape[3];
    let kernel_w = weight.shape[4];
    let stride_h = options.stride[1];
    let stride_w = options.stride[2];
    let pad_h = options.padding[1];
    let pad_w = options.padding[2];
    let dilation_h = options.dilation[1];
    let dilation_w = options.dilation[2];
    let out_h = calculate_conv_output_size(kernel_h, stride_h, pad_h, dilation_h, in_h);
    let out_w = calculate_conv_output_size(kernel_w, stride_w, pad_w, dilation_w, in_w);
    proof {
        lemma_plane_geom_of(x.shape@, weight.shape@, *options);
        lemma_numel_5(x.shape@);
        lemma_numel_5(weight.shape@);
        lemma_mul_nonneg(batch_size as int, channels as int);
        lemma_mul_nonneg(out_h as int, out_w as int);
        assert(batch_size * channels <= batch_size * channels * (out_h * out_w)) by (nonlinear_arith)
            requires out_h * out_w >= 1, batch_size * channels >= 0;
    }
    let in_spatial = in_h * in_w;
    let out_spatial = out_h * out_w;
    let k_spatial = kernel_h * kernel_w;
    let oh_ranges = out_ranges(kernel_h, dilation_h, pad_h, stride_h, in_h, out_h);
    let ow_ranges = out_ranges(kernel_w, dilation_w, pad_w, stride_w, in_w, out_w);
    let ghost g2 = plane_geom(out_spatial as int, in_spatial as int, kernel_h, kernel_w, in_w, out_w, stride_h,
        stride_w, pad_h, pad_w, dilation_h, dilation_w);
    proof {
        assert(plane_ok(g2, out_spatial as int, in_spatial as int, k_spatial as int, oh_ranges@, ow_ranges@)) by {
            if in_w > 0 {
                lemma_div_mod_offset(in_h as int, 0, in_w as int);
                assert(g2.in_h == in_h);
            }
            lemma_div_mod_offset(out_h as int, 0, out_w as int);
            assert(g2.out_h == out_h);
            assert(dilation_h * (kernel_h - 1) == (kernel_h - 1) * dilation_h) by (nonlinear_arith);
            assert(dilation_w * (kernel_w - 1) == (kernel_w - 1) * dilation_w) by (nonlinear_arith);
            assert(g2.in_w > 0 ==> (in_spatial as int) % (g2.in_w as int) == 0);
            if in_w == 0 {
                assert(in_h * in_w == 0) by (nonlinear_arith)
                    requires in_w == 0;
            }
            assert(g2.out_w > 0 ==> (out_spatial as int) % (g2.out_w as int) == 0);
            assert(g2.stride_h >= 1 && g2.stride_w >= 1);
            assert(g2.in_h + g2.pad_h <= usize::MAX);
            assert(g2.in_w + g2.pad_w <= usize::MAX);
            assert(forall|kh: int| 0 <= kh < g2.kernel_h && g2.in_w > 0 ==> (#[trigger] oh_ranges@[kh].0 as int, oh_ranges@[kh].1 as int) == super::out_range(kh, g2.dilation_h as int, g2.pad_h as int, g2.stride_h as int, g2.in_h as int, g2.out_h as int));
            assert(forall|kw: int| 0 <= kw < g2.kernel_w ==> (#[trigger] ow_ranges@[kw].0 as int, ow_ranges@[kw].1 as int) == super::out_range(kw, g2.dilation_w as int, g2.pad_w as int, g2.stride_w as int, g2.in_w as int, g2.out_w as int));
        }
        assert(xs.len() == (batch_size * channels) * in_spatial) by (nonlinear_arith)
            requires
                xs.len() == batch_size * channels * 1 * in_h * in_w,
                in_spatial == in_h * in_w;
        assert(ws.len() == channels * k_spatial) by (nonlinear_arith)
            requires
                ws.len() == channels * 1 * 1 * kernel_h * kernel_w,
                k_spatial == kernel_h * kernel_w;
    }
    let total_planes = batch_size * channels;
    let x_len = x.data.len();
    let w_len = weight.data.len();
    let mut output: Vec<T> = Vec::new();
    let mut bc: usize = 0;
    while bc < total_planes
        invariant
            bc <= total_planes,
            total_planes == batch_size * channels,
            total_planes * out_spatial <= usize::MAX,
            g == conv_geom(x.shape@, weight.shape@, *options),
            g2 == plane_geom(out_spatial as int, in_spatial as int, kernel_h, kernel_w, in_w, out_w, stride_h,
                stride_w, pad_h, pad_w, dilation_h, dilation_w),
            plane_ok(g2, out_spatial as int, in_spatial as int, k_spatial as int, oh_ranges@, ow_ranges@),
            g2.kernel_h == g.kernel_h && g2.kernel_w == g.kernel_w && g2.in_w == g.in_w && g2.out_w == g.out_w,
            g2.stride_h == g.stride_h && g2.stride_w == g.stride_w && g2.pad_h == g.pad_h && g2.pad_w == g.pad_w,
            g2.dilation_h == g.dilation_h && g2.dilation_w == g.dilation_w,
            g2.in_h == g.in_h || g.in_w == 0,
            in_spatial == g.in_h * g.in_w,
            out_spatial == g.out_h * g.out_w,
            k_spatial == g.kernel_h * g.kernel_w,
            out_w == g.out_w,
            out_w >= 1,
            channels == x.shape@[1],
            xs == x.data@,
            ws == weight.data@,
            xs.len() == total_planes * in_spatial,
            ws.len() == channels * k_spatial,
            xs.len() == x_len,
            ws.len() == w_len,
            x.shape@.len() == 5,
            output@.len() == bc * out_spatial,
            forall|a: T, b: T, c: T| call_requires(*mac, (a, b, c)),
            forall|i: int| 0 <= i < output@.len() ==> #[trigger] depthwise_acc(*mac, zero, xs, ws, g, channels as int, i, output@[i]),
        decreases total_planes - bc,
    {
        let c = bc % channels;
        proof {
            assert(bc * in_spatial + in_spatial <= total_planes * in_spatial) by (nonlinear_arith)
                requires bc + 1 <= total_planes, in_spatial >= 0;
            assert(c * k_spatial + k_spatial <= channels * k_spatial) by (nonlinear_arith)
                requires c + 1 <= channels, k_spatial >= 0;
            assert(bc * out_spatial + out_spatial <= total_planes * out_spatial) by (nonlinear_arith)
                requires bc + 1 <= total_planes, out_spatial >= 0;
        }
        let in_base = bc * in_spatial;
        let w_base = c * k_spatial;
        let mut plane = filled(zero, out_spatial);
        let in_plane = slice_subrange(x.data.as_slice(), in_base, in_base + in_spatial);
        let w_plane = slice_subrange(weight.data.as_slice(), w_base, w_base + k_spatial);
        let ghost zeros = plane@;
        conv_plane_accumulate(
            plane.as_mut_slice(),
            in_plane,
            w_plane,
            kernel_h,
            kernel_w,
            in_w,
            out_w,
            stride_h,
            stride_w,
            pad_h,
            pad_w,
            dilation_h,
            dilation_w,
            oh_ranges.as_slice(),
            ow_ranges.as_slice(),
            mac,
        );
        let ghost before = output@;
        output.append(&mut plane);
        proof {
            assert((bc + 1) * out_spatial == bc * out_spatial + out_spatial) by (nonlinear_arith);
            assert(in_plane@ == plane_of(xs, bc as int, in_spatial as int));
            assert(w_plane@ == plane_of(ws, c as int, k_spatial as int));
            assert forall|i: int| 0 <= i < output@.len() implies #[trigger] depthwise_acc(*mac, zero, xs, ws, g, channels as int, i, output@[i]) by {
                if i >= before.len() {
                    let p = i - before.len();
                    lemma_div_mod_offset(bc as int, p, out_spatial as int);
                    assert(i == bc * out_spatial + p);
                    assert(macs_to(*mac, zeros[p], out_steps(in_plane@, w_plane@, g2, p), output@[i]));
                    lemma_steps_same_geom(in_plane@, w_plane@, g2, g, p);
                } else {
                    assert(output@[i] == before[i]);
                }
            }
        }
        bc += 1;
    }
    proof {
        assert(output@.len() == batch_size * channels * (g.out_h * g.out_w));
    }
    let ghost acc = output@;
    match bias {
        Option::Some(b) => {
            add_bias(&mut output, b.data.as_slice(), batch_size, channels, out_spatial, add_fn);
        },
        Option::None => {},
    }
    proof {
        assert forall|i: int| 0 <= i < output@.len() implies #[trigger] depthwise_elem(*mac, *add_fn, zero, xs, ws, bias_data(bias), g, channels as int, i, output@[i]) by {
            assert(depthwise_acc(*mac, zero, xs, ws, g, channels as int, i, acc[i]));
        }
    }
    let shape = vec![batch_size, channels, 1, out_h, out_w];
    let r = HostTensor::new(output, shape, dtype);
    proof {
        lemma_numel_5(r.shape@);
        assert(r.data@.len() == batch_size * channels * 1 * out_h * out_w) by (nonlinear_arith)
            requires r.data@.len() == batch_size * channels * (out_h * out_w);
    }
    r
}

} // verus!
