//! Small-channel convolution: ungrouped convolutions with few input and
//! output channels. Each `(batch, out_channel)` plane accumulates the
//! contribution of every input channel in turn, directly from the input.
use vstd::prelude::*;
use crate::tensor::{DType, HostTensor, shape_numel, lemma_numel_5};
use crate::fold::{macs_to, lemma_macs_concat, lemma_macs_to_empty};
use crate::arith::{lemma_div_mod_offset, lemma_mul_nonneg, lemma_div_lt};
use crate::pool::backward::filled;
use vstd::slice::slice_subrange;
use super::{
    ConvOptions, conv_geom, plane_of, biased, bias_data, conv2d_in_3d_ok, is_small_channel,
    calculate_conv_output_size, out_ranges, add_bias,
};
use super::plane::{PlaneGeom, out_steps, plane_tap, plane_geom, plane_ok, plane_accumulated, conv_plane_accumulate};
use super::depthwise::{lemma_steps_same_geom, lemma_plane_geom_of};

verus! {

/// The multiply-accumulate steps of output position `p` of plane
/// `(b, co)`: for each input channel in order, the taps of that channel's
/// kernel over that channel's input plane.
pub open spec fn small_steps<T>(
    x: Seq<T>,
    w: Seq<T>,
    g: PlaneGeom,
    c_in: int,
    b: int,
    co: int,
    p: int,
) -> Seq<Option<(T, T)>> {
    let k = g.kernel_h * g.kernel_w;
    Seq::new(
        (c_in * k) as nat,
        |j: int|
            plane_tap(
                plane_of(x, b * c_in + j / k, g.in_h * g.in_w),
                plane_of(w, co * c_in + j / k, k),
                g,
                p / (g.out_w as int),
                p % (g.out_w as int),
                j % k,
            ),
    )
}

/// Output element `i` of a small-channel convolution is `r`: the
/// accumulation over all input channels plus the bias of its output channel.
pub open spec fn small_elem<T, M: Fn(T, T, T) -> T, A: Fn(T, T) -> T>(
    mac: M,
    add: A,
    zero: T,
    x: Seq<T>,
    w: Seq<T>,
    bias: Option<Seq<T>>,
    g: PlaneGeom,
    c_in: int,
    c_out: int,
    i: int,
    r: T,
) -> bool {
    let out_sp = g.out_h * g.out_w;
    let bco = i / out_sp;
    exists|v: T|
        #[trigger] macs_to(mac, zero, small_steps(x, w, g, c_in, bco / c_out, bco % c_out, i % out_sp), v)
            && biased(add, bias, bco % c_out, v, r)
}

/// `out` is the ungrouped convolution of `x` with `w`, accumulated input
/// channel by input channel, plus the bias.
pub open spec fn small_channel_result<T, M: Fn(T, T, T) -> T, A: Fn(T, T) -> T>(
    mac: M,
    add: A,
    zero: T,
    x: Seq<T>,
    x_shape: Seq<usize>,
    w: Seq<T>,
    w_shape: Seq<usize>,
    bias: Option<Seq<T>>,
    options: ConvOptions<3>,
    out: Seq<T>,
) -> bool {
    let g = conv_geom(x_shape, w_shape, options);
    &&& out.len() == x_shape[0] * w_shape[0] * (g.out_h * g.out_w)
    &&& forall|i: int|
        0 <= i < out.len() ==> #[trigger] small_elem(mac, add, zero, x, w, bias, g, x_shape[1] as int, w_shape[0] as int, i, out[i])
}

/// The steps of the first `ci + 1` input channels are those of the first
/// `ci` followed by the taps of channel `ci`.
proof fn lemma_small_steps_split<T>(x: Seq<T>, w: Seq<T>, g: PlaneGeom, c_in: int, b: int, co: int, p: int, ci: int)
    requires
        0 <= ci < c_in,
        g.kernel_h * g.kernel_w >= 0,
    ensures
        ({
            let k = g.kernel_h * g.kernel_w;
            let s = small_steps(x, w, g, c_in, b, co, p);
            s.take((ci + 1) * k) == s.take(ci * k) + out_steps(
                plane_of(x, b * c_in + ci, g.in_h * g.in_w),
                plane_of(w, co * c_in + ci, k),
                g,
                p,
            )
        }),
{
    let k = g.kernel_h * g.kernel_w;
    let s = small_steps(x, w, g, c_in, b, co, p);
    let t = out_steps(plane_of(x, b * c_in + ci, g.in_h * g.in_w), plane_of(w, co * c_in + ci, k), g, p);
    assert((ci + 1) * k == ci * k + k) by (nonlinear_arith);
    assert((ci + 1) * k <= c_in * k) by (nonlinear_arith)
        requires ci + 1 <= c_in, k >= 0;
    assert(0 <= ci * k) by (nonlinear_arith)
        requires ci >= 0, k >= 0;
    assert forall|j: int| ci * k <= j < ci * k + k implies s[j] == t[j - ci * k] by {
        lemma_div_mod_offset(ci, j - ci * k, k);
    }
    assert(s.take((ci + 1) * k) =~= s.take(ci * k) + t);
}

/// Small-channel conv3d: ungrouped, with at most `SMALL_CHANNEL_IN_THRESHOLD`
/// input and `SMALL_CHANNEL_OUT_THRESHOLD` output channels, over a trivial
/// depth axis, as `should_use_small_channel_conv` selects them. A bias must
/// hold one element per output channel.
pub fn conv3d_small_channel_impl<T: Copy, M: Fn(T, T, T) -> T, A: Fn(T, T) -> T>(
    x: HostTensor<T>,
    weight: HostTensor<T>,
    bias: Option<HostTensor<T>>,
    options: &ConvOptions<3>,
    dtype: DType,
    zero: T,
    mac: &M,
    add_fn: &A,
) -> (r: HostTensor<T>)
    requires
        x.wf(),
        weight.wf(),
        conv2d_in_3d_ok(x.shape@, weight.shape@, *options, weight.shape@[0] as int),
        is_small_channel(x.shape@, weight.shape@, *options),
        weight.shape@[1] == x.shape@[1],
        match bias {
            Option::Some(b) => b.data@.len() == weight.shape@[0],
            Option::None => true,
        },
        forall|a: T, b: T, c: T| call_requires(*mac, (a, b, c)),
        forall|a: T, b: T| call_requires(*add_fn, (a, b)),
    ensures
        r.shape@ == seq![
            x.shape@[0],
            weight.shape@[0],
            1usize,
            conv_geom(x.shape@, weight.shape@, *options).out_h,
            conv_geom(x.shape@, weight.shape@, *options).out_w,
        ],
        r.dtype == dtype,
        r.wf(),
        small_channel_result(*mac, *add_fn, zero, x.data@, x.shape@, weight.data@, weight.shape@, bias_data(bias), *options, r.data@),
{
    let ghost g = conv_geom(x.shape@, weight.shape@, *options);
    let ghost xs = x.data@;
    let ghost ws = weight.data@;
    let batch_size = x.shape[0];
    let channels_in = x.shape[1];
    let in_h = x.shape[3];
    let in_w = x.shape[4];
    let channels_out = weight.shape[0];
    let kernel_h = weight.shape[3];
    let kernel_w = weight.shape[4];
    let stride_h = options.stride[1];
    let stride_w = options.stride[2];
    let pad_h = options.padding[1];
    let pad_w = options.padding[2];
    let dilation_h = options.dilation[1];
    let dilation_w = options.dilation[2];
    let out_h = calculate_conv_output_size(kernel_h, stride_h, pad_h, dilation_h, in_h);
    let out_w = calculate_conv_output_size(kernel_w, stride_w, pad_w, dilation_w, in_w);
    proof {
        lemma_plane_geom_of(x.shape@, weight.shape@, *options);
        lemma_numel_5(x.shape@);
        lemma_numel_5(weight.shape@);
        lemma_mul_nonneg(batch_size as int, channels_out as int);
        lemma_mul_nonneg(out_h as int, out_w as int);
        assert(batch_size * channels_out <= batch_size * channels_out * (out_h * out_w)) by (nonlinear_arith)
            requires out_h * out_w >= 1, batch_size * channels_out >= 0;
    }
    let in_spatial = in_h * in_w;
    let out_spatial = out_h * out_w;
    let k_spatial = kernel_h * kernel_w;
    let x_len = x.data.len();
    let w_len = weight.data.len();
    proof {
        assert(xs.len() == (batch_size * channels_in) * in_spatial) by (nonlinear_arith)
            requires
                xs.len() == batch_size * channels_in * 1 * in_h * in_w,
                in_spatial == in_h * in_w;
        assert(ws.len() == (channels_out * channels_in) * k_spatial) by (nonlinear_arith)
            requires
                ws.len() == channels_out * channels_in * 1 * kernel_h * kernel_w,
                k_spatial == kernel_h * kernel_w;
        lemma_mul_nonneg(batch_size as int, channels_in as int);
        lemma_mul_nonneg(channels_out as int, channels_in as int);
        lemma_mul_nonneg(in_spatial as int, 1);
        lemma_mul_nonneg(k_spatial as int, 1);
    }
    let w_co_stride = channels_in * k_spatial;
    let x_batch_stride = channels_in * in_spatial;
    let oh_ranges = out_ranges(kernel_h, dilation_h, pad_h, stride_h, in_h, out_h);
    let ow_ranges = out_ranges(kernel_w, dilation_w, pad_w, stride_w, in_w, out_w);
    let ghost g2 = plane_geom(out_spatial as int, in_spatial as int, kernel_h, kernel_w, in_w, out_w, stride_h,
        stride_w, pad_h, pad_w, dilation_h, dilation_w);
    proof {
        if in_w > 0 {
            lemma_div_mod_offset(in_h as int, 0, in_w as int);
            assert(g2.in_h == in_h);
        } else {
            assert(in_h * in_w == 0) by (nonlinear_arith)
                requires in_w == 0;
        }
        lemma_div_mod_offset(out_h as int, 0, out_w as int);
        assert(g2.out_h == out_h);
        assert(dilation_h * (kernel_h - 1) == (kernel_h - 1) * dilation_h) by (nonlinear_arith);
        assert(dilation_w * (kernel_w - 1) == (kernel_w - 1) * dilation_w) by (nonlinear_arith);
        assert(forall|kh: int| 0 <= kh < g2.kernel_h && g2.in_w > 0 ==> (#[trigger] oh_ranges@[kh].0 as int, oh_ranges@[kh].1 as int) == super::out_range(kh, g2.dilation_h as int, g2.pad_h as int, g2.stride_h as int, g2.in_h as int, g2.out_h as int));
        assert(forall|kw: int| 0 <= kw < g2.kernel_w ==> (#[trigger] ow_ranges@[kw].0 as int, ow_ranges@[kw].1 as int) == super::out_range(kw, g2.dilation_w as int, g2.pad_w as int, g2.stride_w as int, g2.in_w as int, g2.out_w as int));
        assert(plane_ok(g2, out_spatial as int, in_spatial as int, k_spatial as int, oh_ranges@, ow_ranges@));
    }
    let total_planes = batch_size * channels_out;
    let mut output: Vec<T> = Vec::new();
    let mut b_co: usize = 0;
    while b_co < total_planes
        invariant
            b_co <= total_planes,
            total_planes == batch_size * channels_out,
            total_planes * out_spatial <= usize::MAX,
            channels_out >= 1,
            g == conv_geom(x.shape@, weight.shape@, *options),
            g2 == plane_geom(out_spatial as int, in_spatial as int, kernel_h, kernel_w, in_w, out_w, stride_h,
                stride_w, pad_h, pad_w, dilation_h, dilation_w),
            plane_ok(g2, out_spatial as int, in_spatial as int, k_spatial as int, oh_ranges@, ow_ranges@),
            g2.kernel_h == g.kernel_h && g2.kernel_w == g.kernel_w && g2.in_w == g.in_w && g2.out_w == g.out_w,
            g2.stride_h == g.stride_h && g2.stride_w == g.stride_w && g2.pad_h == g.pad_h && g2.pad_w == g.pad_w,
            g2.dilation_h == g.dilation_h && g2.dilation_w == g.dilation_w,
            g2.in_h == g.in_h || g.in_w == 0,
            in_spatial == g.in_h * g.in_w,
            out_spatial == g.out_h * g.out_w,
            k_spatial == g.kernel_h * g.kernel_w,
            w_co_stride == channels_in * k_spatial,
            x_batch_stride == channels_in * in_spatial,
            out_w == g.out_w,
            out_w >= 1,
            channels_in == x.shape@[1],
            channels_out == weight.shape@[0],
            x.shape@.len() == 5,
            weight.shape@.len() == 5,
            xs == x.data@,
            ws == weight.data@,
            xs.len() == (batch_size * channels_in) * in_spatial,
            ws.len() == (channels_out * channels_in) * k_spatial,
            xs.len() == x_len,
            ws.len() == w_len,
            output@.len() == b_co * out_spatial,
            forall|a: T, b: T, c: T| call_requires(*mac, (a, b, c)),
            forall|i: int|
                0 <= i < output@.len() ==> #[trigger] macs_to(
                    *mac,
                    zero,
                    small_steps(xs, ws, g, channels_in as int, (i / out_spatial as int) / channels_out as int,
                        (i / out_spatial as int) % channels_out as int, i % out_spatial as int),
                    output@[i],
                ),
        decreases total_planes - b_co,
    {
        let b = b_co / channels_out;
        let co = b_co % channels_out;
        proof {
            lemma_div_lt(b_co as int, batch_size as int, channels_out as int);
            assert((b_co + 1) * out_spatial == b_co * out_spatial + out_spatial) by (nonlinear_arith);
            assert(b_co * out_spatial + out_spatial <= total_planes * out_spatial) by (nonlinear_arith)
                requires b_co + 1 <= total_planes, out_spatial >= 0;
        }
        let mut plane = filled(zero, out_spatial);
        let mut ci: usize = 0;
        proof {
            assert forall|p: int| 0 <= p < plane@.len() implies #[trigger] macs_to(
                *mac,
                zero,
                small_steps(xs, ws, g, channels_in as int, b as int, co as int, p).take(0),
                plane@[p],
            ) by {
                lemma_macs_to_empty(*mac, zero);
                assert(small_steps(xs, ws, g, channels_in as int, b as int, co as int, p).take(0) =~= Seq::<Option<(T, T)>>::empty());
            }
        }
        while ci < channels_in
            invariant
                ci <= channels_in,
                b < batch_size,
                co < channels_out,
                g == conv_geom(x.shape@, weight.shape@, *options),
                g2 == plane_geom(out_spatial as int, in_spatial as int, kernel_h, kernel_w, in_w, out_w, stride_h,
                    stride_w, pad_h, pad_w, dilation_h, dilation_w),
                plane_ok(g2, out_spatial as int, in_spatial as int, k_spatial as int, oh_ranges@, ow_ranges@),
                g2.kernel_h == g.kernel_h && g2.kernel_w == g.kernel_w && g2.in_w == g.in_w && g2.out_w == g.out_w,
                g2.stride_h == g.stride_h && g2.stride_w == g.stride_w && g2.pad_h == g.pad_h && g2.pad_w == g.pad_w,
                g2.dilation_h == g.dilation_h && g2.dilation_w == g.dilation_w,
                g2.in_h == g.in_h || g.in_w == 0,
                in_spatial == g.in_h * g.in_w,
                out_spatial == g.out_h * g.out_w,
                k_spatial == g.kernel_h * g.kernel_w,
                w_co_stride == channels_in * k_spatial,
                x_batch_stride == channels_in * in_spatial,
                xs == x.data@,
                ws == weight.data@,
                xs.len() == (batch_size * channels_in) * in_spatial,
                ws.len() == (channels_out * channels_in) * k_spatial,
                xs.len() == x_len,
                ws.len() == w_len,
                plane@.len() == out_spatial,
                forall|a: T, b: T, c: T| call_requires(*mac, (a, b, c)),
                forall|p: int|
                    0 <= p < plane@.len() ==> #[trigger] macs_to(
                        *mac,
                        zero,
                        small_steps(xs, ws, g, channels_in as int, b as int, co as int, p).take(ci * k_spatial),
                        plane@[p],
                    ),
            decreases channels_in - ci,
        {
            proof {
                assert((b * channels_in + ci) * in_spatial + in_spatial <= (batch_size * channels_in) * in_spatial) by (nonlinear_arith)
                    requires b + 1 <= batch_size, ci + 1 <= channels_in, in_spatial >= 0;
                assert((co * channels_in + ci) * k_spatial + k_spatial <= (channels_out * channels_in) * k_spatial) by (nonlinear_arith)
                    requires co + 1 <= channels_out, ci + 1 <= channels_in, k_spatial >= 0;
                assert(b * x_batch_stride + ci * in_spatial == (b * channels_in + ci) * in_spatial) by (nonlinear_arith)
                    requires x_batch_stride == channels_in * in_spatial;
                assert(co * w_co_stride + ci * k_spatial == (co * channels_in + ci) * k_spatial) by (nonlinear_arith)
                    requires w_co_stride == channels_in * k_spatial;
                lemma_mul_nonneg(b as int, x_batch_stride as int);
                lemma_mul_nonneg(ci as int, in_spatial as int);
                lemma_mul_nonneg(co as int, w_co_stride as int);
                lemma_mul_nonneg(ci as int, k_spatial as int);
            }
            let in_base = b * x_batch_stride + ci * in_spatial;
            let w_base = co * w_co_stride + ci * k_spatial;
            let in_plane = slice_subrange(x.data.as_slice(), in_base, in_base + in_spatial);
            let w_plane = slice_subrange(weight.data.as_slice(), w_base, w_base + k_spatial);
            let ghost before = plane@;
            conv_plane_accumulate(
                plane.as_mut_slice(),
                in_plane,
                w_plane,
                kernel_h,
                kernel_w,
                in_w,
                out_w,
                stride_h,
                stride_w,
                pad_h,
                pad_w,
                dilation_h,
                dilation_w,
                oh_ranges.as_slice(),
                ow_ranges.as_slice(),
                mac,
            );
            proof {
                assert(in_plane@ == plane_of(xs, b * channels_in + ci, in_spatial as int));
                assert(w_plane@ == plane_of(ws, co * channels_in + ci, k_spatial as int));
                assert forall|p: int| 0 <= p < plane@.len() implies #[trigger] macs_to(
                    *mac,
                    zero,
                    small_steps(xs, ws, g, channels_in as int, b as int, co as int, p).take((ci + 1) * k_spatial),
                    plane@[p],
                ) by {
                    assert(macs_to(*mac, before[p], out_steps(in_plane@, w_plane@, g2, p), plane@[p]));
                    lemma_steps_same_geom(in_plane@, w_plane@, g2, g, p);
                    assert(macs_to(*mac, zero, small_steps(xs, ws, g, channels_in as int, b as int, co as int, p).take(ci * k_spatial), before[p]));
                    lemma_small_steps_split(xs, ws, g, channels_in as int, b as int, co as int, p, ci as int);
                    lemma_macs_concat(
                        *mac,
                        zero,
                        small_steps(xs, ws, g, channels_in as int, b as int, co as int, p).take(ci * k_spatial),
                        before[p],
                        out_steps(in_plane@, w_plane@, g, p),
                        plane@[p],
                    );
                }
                assert((ci + 1) * k_spatial == ci * k_spatial + k_spatial) by (nonlinear_arith);
            }
            ci += 1;
        }
        let ghost done = output@;
        let ghost pl = plane@;
        output.append(&mut plane);
        proof {
            assert forall|i: int| 0 <= i < output@.len() implies #[trigger] macs_to(
                *mac,
                zero,
                small_steps(xs, ws, g, channels_in as int, (i / out_spatial as int) / channels_out as int,
                    (i / out_spatial as int) % channels_out as int, i % out_spatial as int),
                output@[i],
            ) by {
                if i >= done.len() {
                    let p = i - done.len();
                    lemma_div_mod_offset(b_co as int, p, out_spatial as int);
                    assert(i == b_co * out_spatial + p);
                    assert(small_steps(xs, ws, g, channels_in as int, b as int, co as int, p).take(channels_in * k_spatial)
                        =~= small_steps(xs, ws, g, channels_in as int, b as int, co as int, p));
                    assert(macs_to(*mac, zero, small_steps(xs, ws, g, channels_in as int, b as int, co as int, p).take(channels_in * k_spatial), pl[p]));
                } else {
                    assert(output@[i] == done[i]);
                }
            }
        }
        b_co += 1;
    }
    let ghost acc = output@;
    match bias {
        Option::Some(bv) => {
            add_bias(&mut output, bv.data.as_slice(), batch_size, channels_out, out_spatial, add_fn);
        },
        Option::None => {},
    }
    proof {
        assert forall|i: int| 0 <= i < output@.len() implies #[trigger] small_elem(
            *mac,
            *add_fn,
            zero,
            xs,
            ws,
            bias_data(bias),
            g,
            channels_in as int,
            channels_out as int,
            i,
            output@[i],
        ) by {
            assert(macs_to(
                *mac,
                zero,
                small_steps(xs, ws, g, channels_in as int, (i / out_spatial as int) / channels_out as int,
                    (i / out_spatial as int) % channels_out as int, i % out_spatial as int),
                acc[i],
            ));
        }
    }
    let shape = vec![batch_size, channels_out, 1, out_h, out_w];
    let r = HostTensor::new(output, shape, dtype);
    proof {
        lemma_numel_5(r.shape@);
        assert(r.data@.len() == batch_size * channels_out * 1 * out_h * out_w) by (nonlinear_arith)
            requires r.data@.len() == batch_size * channels_out * (out_h * out_w);
    }
    r
}

} // verus!
