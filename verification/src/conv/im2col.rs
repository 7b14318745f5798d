//! The general convolution path: the input is converted to channels-last
//! order, and the output is produced tile by tile and group by group as a
//! matrix product of the flattened kernel with an im2col patch matrix.
use vstd::prelude::*;
use crate::arith::{lemma_offset2, lemma_div_lt, lemma_div_mod_offset, lemma_mul_nonneg};
use crate::pool::{pool_tap, unflatten3, unflatten3_exec, tap_index};
use crate::pool::backward::filled;
use crate::tensor::{DType, HostTensor, shape_numel, lemma_numel_5};
use vstd::slice::slice_subrange;
use super::{ConvOptions, conv_out_len, conv_axis_ok, calculate_conv_output_size, div_ceil, biased, bias_data, add_bias};

verus! {

/// Geometry of the im2col patch matrix of one group: output extents, the
/// kernel, stride, dilation and padding per spatial axis, the input extents,
/// the channels of a group, the patch length and the input channel count.
#[derive(Clone, Copy)]
pub struct PatchGeom {
    pub out_h: usize,
    pub out_w: usize,
    pub kernel_d: usize,
    pub kernel_h: usize,
    pub kernel_w: usize,
    pub stride_d: usize,
    pub stride_h: usize,
    pub stride_w: usize,
    pub dilation_d: usize,
    pub dilation_h: usize,
    pub dilation_w: usize,
    pub pad_d: usize,
    pub pad_h: usize,
    pub pad_w: usize,
    pub in_d: usize,
    pub in_h: usize,
    pub in_w: usize,
    pub channels_per_group: usize,
    pub col_len: usize,
    pub channels: usize,
}

/// Row-major offset of `(b, d, h, w, c)` in a channels-last
/// `[batch, d, h, w, channels]` buffer.
pub open spec fn ndhwc_offset(b: int, d: int, h: int, w: int, c: int, in_d: int, in_h: int, in_w: int, channels: int) -> int {
    (((b * in_d + d) * in_h + h) * in_w + w) * channels + c
}

/// Coordinates `(d, h, w)` of flat output position `s` in a plane of
/// `out_h x out_w` positions per depth slice.
pub open spec fn out_coords(s: int, out_h: int, out_w: int) -> (int, int, int) {
    (s / (out_h * out_w), (s % (out_h * out_w)) / out_w, (s % (out_h * out_w)) % out_w)
}

/// The input position `(d, h, w)` that patch offset `off` of output position
/// `global` reads, or `None` when it reads padding. A patch lists the kernel
/// taps in row-major order, each tap contributing one entry per channel of
/// the group.
pub open spec fn patch_tap(g: PatchGeom, global: int, off: int) -> Option<(int, int, int)> {
    let o = out_coords(global, g.out_h as int, g.out_w as int);
    let k = unflatten3(off / (g.channels_per_group as int), g.kernel_h as int, g.kernel_w as int);
    let id = pool_tap(o.0, k.0, g.stride_d as int, g.dilation_d as int, g.pad_d as int);
    let ih = pool_tap(o.1, k.1, g.stride_h as int, g.dilation_h as int, g.pad_h as int);
    let iw = pool_tap(o.2, k.2, g.stride_w as int, g.dilation_w as int, g.pad_w as int);
    if 0 <= id < g.in_d && 0 <= ih < g.in_h && 0 <= iw < g.in_w {
        Option::Some((id, ih, iw))
    } else {
        Option::None
    }
}

/// Element `j` of a patch matrix for output positions from `tile_start`,
/// filled from channels-last input `x_nhwc` for batch `b` and the group whose
/// first input channel is `in_c_start`; entries that read padding keep
/// their value in `old`.
pub open spec fn im2col_value<T>(
    g: PatchGeom,
    old: Seq<T>,
    x_nhwc: Seq<T>,
    tile_start: int,
    tile_size: int,
    b: int,
    in_c_start: int,
    j: int,
) -> T {
    if j < tile_size * g.col_len {
        let off = j % (g.col_len as int);
        match patch_tap(g, tile_start + j / (g.col_len as int), off) {
            Option::Some(t) => x_nhwc[ndhwc_offset(
                b,
                t.0,
                t.1,
                t.2,
                in_c_start + off % (g.channels_per_group as int),
                g.in_d as int,
                g.in_h as int,
                g.in_w as int,
                g.channels as int,
            )],
            Option::None => old[j],
        }
    } else {
        old[j]
    }
}

/// The patch geometry of the arguments of `im2col_3d_tile`.
pub open spec fn patch_geom(
    out_h: usize,
    out_w: usize,
    kernel_d: usize,
    kernel_h: usize,
    kernel_w: usize,
    stride_d: usize,
    stride_h: usize,
    stride_w: usize,
    dilation_d: usize,
    dilation_h: usize,
    dilation_w: usize,
    pad_d: usize,
    pad_h: usize,
    pad_w: usize,
    in_d: usize,
    in_h: usize,
    in_w: usize,
    channels_per_group: usize,
    col_len: usize,
    channels: usize,
) -> PatchGeom {
    PatchGeom {
        out_h,
        out_w,
        kernel_d,
        kernel_h,
        kernel_w,
        stride_d,
        stride_h,
        stride_w,
        dilation_d,
        dilation_h,
        dilation_w,
        pad_d,
        pad_h,
        pad_w,
        in_d,
        in_h,
        in_w,
        channels_per_group,
        col_len,
        channels,
    }
}

/// The arguments `im2col_3d_tile` works on: a patch length of one entry per
/// tap and group channel, a buffer holding the whole tile, channels-last
/// strides of an input holding batch `b` and the group's channels, and
/// padded extents that fit in `usize`.
pub open spec fn im2col_ok(
    g: PatchGeom,
    col_len: int,
    x_len: int,
    tile_start: int,
    tile_end: int,
    b: int,
    in_c_start: int,
    nhwc_stride: (usize, usize, usize, usize, usize),
) -> bool {
    let dhw = g.in_d * g.in_h * g.in_w;
    &&& g.col_len == g.channels_per_group * (g.kernel_d * g.kernel_h * g.kernel_w)
    &&& g.kernel_d * g.kernel_h * g.kernel_w <= usize::MAX
    &&& g.kernel_d * g.kernel_h <= usize::MAX
    &&& tile_start <= tile_end
    &&& (tile_end - tile_start) * g.col_len <= col_len
    &&& (tile_start < tile_end ==> g.out_h * g.out_w > 0)
    &&& g.out_h * g.out_w <= usize::MAX
    &&& tile_end <= usize::MAX
    &&& nhwc_stride.4 == 1
    &&& nhwc_stride.3 == g.channels
    &&& nhwc_stride.2 == g.in_w * g.channels
    &&& nhwc_stride.1 == g.in_h * g.in_w * g.channels
    &&& nhwc_stride.0 == dhw * g.channels
    &&& in_c_start + g.channels_per_group <= g.channels
    &&& (b + 1) * (dhw * g.channels) <= x_len
    &&& g.in_d + g.pad_d <= usize::MAX
    &&& g.in_h + g.pad_h <= usize::MAX
    &&& g.in_w + g.pad_w <= usize::MAX
}

/// A channels-last offset computed from the strides is the row-major
/// offset, and it and the rest of its pixel lie in batch `b`.
proof fn lemma_nhwc_index(g: PatchGeom, nhwc_stride: (usize, usize, usize, usize, usize), b: int, id: int, ih: int, iw: int, c: int)
    requires
        nhwc_stride.3 == g.channels,
        nhwc_stride.2 == g.in_w * g.channels,
        nhwc_stride.1 == g.in_h * g.in_w * g.channels,
        nhwc_stride.0 == g.in_d * g.in_h * g.in_w * g.channels,
        b >= 0,
        0 <= id < g.in_d,
        0 <= ih < g.in_h,
        0 <= iw < g.in_w,
        0 <= c <= g.channels,
    ensures
        b * nhwc_stride.0 + id * nhwc_stride.1 + ih * nhwc_stride.2 + iw * nhwc_stride.3 + c == ndhwc_offset(b, id, ih, iw, c, g.in_d as int, g.in_h as int, g.in_w as int, g.channels as int),
        0 <= ndhwc_offset(b, id, ih, iw, c, g.in_d as int, g.in_h as int, g.in_w as int, g.channels as int),
        ndhwc_offset(b, id, ih, iw, c, g.in_d as int, g.in_h as int, g.in_w as int, g.channels as int) + (g.channels - c) <= (b + 1) * (g.in_d * g.in_h * g.in_w * g.channels),
        0 <= b * nhwc_stride.0,
        0 <= id * nhwc_stride.1,
        0 <= ih * nhwc_stride.2,
        0 <= iw * nhwc_stride.3,
{
    let d = g.in_d as int;
    let h = g.in_h as int;
    let w = g.in_w as int;
    let ch = g.channels as int;
    let e1 = b * d + id;
    let e2 = e1 * h + ih;
    let e3 = e2 * w + iw;
    assert(e3 * ch == e2 * w * ch + iw * ch) by (nonlinear_arith)
        requires e3 == e2 * w + iw;
    assert(e2 * w * ch == e1 * h * w * ch + ih * w * ch) by (nonlinear_arith)
        requires e2 == e1 * h + ih;
    assert(e1 * h * w * ch == b * d * h * w * ch + id * h * w * ch) by (nonlinear_arith)
        requires e1 == b * d + id;
    assert(b * nhwc_stride.0 == b * d * h * w * ch) by (nonlinear_arith)
        requires nhwc_stride.0 == d * h * w * ch;
    assert(id * nhwc_stride.1 == id * h * w * ch) by (nonlinear_arith)
        requires nhwc_stride.1 == h * w * ch;
    assert(ih * nhwc_stride.2 == ih * w * ch) by (nonlinear_arith)
        requires nhwc_stride.2 == w * ch;
    lemma_offset2(b, id, b + 1, d);
    lemma_offset2(e1, ih, (b + 1) * d, h);
    lemma_offset2(e2, iw, (b + 1) * d * h, w);
    assert(e3 * ch + ch <= (b + 1) * d * h * w * ch) by (nonlinear_arith)
        requires e3 + 1 <= (b + 1) * d * h * w, ch >= 0;
    assert((b + 1) * d * h * w * ch == (b + 1) * (d * h * w * ch)) by (nonlinear_arith);
    lemma_mul_nonneg(e3, ch);
    lemma_mul_nonneg(b, nhwc_stride.0 as int);
    lemma_mul_nonneg(id, nhwc_stride.1 as int);
    lemma_mul_nonneg(ih, nhwc_stride.2 as int);
    lemma_mul_nonneg(iw, nhwc_stride.3 as int);
}

/// Offsets inside the patch row of a tile: row `local`, tap `t`, channel `c`.
proof fn lemma_patch_offset(local: int, t: int, c: int, kvol: int, cpg: int, col_len: int, tile_size: int)
    requires
        col_len == cpg * kvol,
        0 <= local < tile_size,
        0 <= t < kvol,
        0 <= c < cpg,
    ensures
        ({
            let j = local * col_len + t * cpg + c;
            &&& 0 <= t * cpg + c < col_len
            &&& 0 <= j < tile_size * col_len
            &&& j / col_len == local
            &&& j % col_len == t * cpg + c
            &&& (t * cpg + c) / cpg == t
            &&& (t * cpg + c) % cpg == c
            &&& local * col_len + t * cpg + cpg <= local * col_len + col_len
        }),
{
    lemma_offset2(t, c, kvol, cpg);
    assert(kvol * cpg == cpg * kvol) by (nonlinear_arith);
    lemma_offset2(local, t * cpg + c, tile_size, col_len);
    lemma_div_mod_offset(local, t * cpg + c, col_len);
    lemma_div_mod_offset(t, c, cpg);
    assert(t * cpg + cpg <= col_len) by (nonlinear_arith)
        requires t + 1 <= kvol, col_len == cpg * kvol, cpg >= 0;
}

/// Build the im2col patch matrix of one tile of output positions
/// `[tile_start, tile_end)` and one group: row `local` holds, tap by tap and
/// channel by channel, the input values the patch of output position
/// `tile_start + local` reads. Entries that read padding are left as they
/// are (the buffer comes zero-filled).
pub fn im2col_3d_tile<T: Copy>(
    col_tile: &mut [T],
    x_nhwc: &[T],
    tile_start: usize,
    tile_end: usize,
    out_h: usize,
    out_w: usize,
    kernel_d: usize,
    kernel_h: usize,
    kernel_w: usize,
    stride_d: usize,
    stride_h: usize,
    stride_w: usize,
    dilation_d: usize,
    dilation_h: usize,
    dilation_w: usize,
    pad_d: usize,
    pad_h: usize,
    pad_w: usize,
    in_d: usize,
    in_h: usize,
    in_w: usize,
    channels_per_group: usize,
    col_len: usize,
    b: usize,
    in_c_start: usize,
    nhwc_stride: (usize, usize, usize, usize, usize),
)
    requires
        im2col_ok(
            patch_geom(out_h, out_w, kernel_d, kernel_h, kernel_w, stride_d, stride_h, stride_w, dilation_d,
                dilation_h, dilation_w, pad_d, pad_h, pad_w, in_d, in_h, in_w, channels_per_group, col_len,
                nhwc_stride.3),
            old(col_tile)@.len() as int,
            x_nhwc@.len() as int,
            tile_start as int,
            tile_end as int,
            b as int,
            in_c_start as int,
            nhwc_stride,
        ),
    ensures
        final(col_tile)@.len() == old(col_tile)@.len(),
        forall|j: int|
            0 <= j < old(col_tile)@.len() ==> #[trigger] final(col_tile)@[j] == im2col_value(
                patch_geom(out_h, out_w, kernel_d, kernel_h, kernel_w, stride_d, stride_h, stride_w, dilation_d,
                    dilation_h, dilation_w, pad_d, pad_h, pad_w, in_d, in_h, in_w, channels_per_group, col_len,
                    nhwc_stride.3),
                old(col_tile)@,
                x_nhwc@,
                tile_start as int,
                tile_end - tile_start,
                b as int,
                in_c_start as int,
                j,
            ),
{
    let ghost g = patch_geom(out_h, out_w, kernel_d, kernel_h, kernel_w, stride_d, stride_h, stride_w, dilation_d,
        dilation_h, dilation_w, pad_d, pad_h, pad_w, in_d, in_h, in_w, channels_per_group, col_len, nhwc_stride.3);
    let ghost old_col = col_tile@;
    let ghost xs = x_nhwc@;
    let x_len = x_nhwc.len();
    let col_total = col_tile.len();
    let tile_size = tile_end - tile_start;
    assert(kernel_d * kernel_h * kernel_w == g.kernel_d * g.kernel_h * g.kernel_w);
    let kvol = kernel_d * kernel_h * kernel_w;
    let mut local: usize = 0;
    while local < tile_size
        invariant
            g == patch_geom(out_h, out_w, kernel_d, kernel_h, kernel_w, stride_d, stride_h, stride_w, dilation_d,
                dilation_h, dilation_w, pad_d, pad_h, pad_w, in_d, in_h, in_w, channels_per_group, col_len,
                nhwc_stride.3),
            im2col_ok(g, old_col.len() as int, xs.len() as int, tile_start as int, tile_end as int, b as int, in_c_start as int, nhwc_stride),
            xs == x_nhwc@,
            xs.len() == x_len,
            old_col.len() == col_total,
            tile_size == tile_end - tile_start,
            kvol == kernel_d * kernel_h * kernel_w,
            local <= tile_size,
            col_tile@.len() == old_col.len(),
            forall|j: int|
                0 <= j < old_col.len() ==> #[trigger] col_tile@[j] == if j < local * col_len {
                    im2col_value(g, old_col, xs, tile_start as int, tile_size as int, b as int, in_c_start as int, j)
                } else {
                    old_col[j]
                },
        decreases tile_size - local,
    {
        let global = tile_start + local;
        assert(out_w > 0) by (nonlinear_arith)
            requires out_h * out_w > 0, out_h >= 0, out_w >= 0;
        let ohw = out_h * out_w;
        let out_d_idx = global / ohw;
        let rem = global % ohw;
        let out_h_idx = rem / out_w;
        let out_w_idx = rem % out_w;
        let mut t: usize = 0;
        proof {
            lemma_mul_nonneg(local as int, col_len as int);
            assert((local + 1) * col_len == local * col_len + col_len) by (nonlinear_arith);
            assert((local + 1) * col_len <= tile_size * col_len) by (nonlinear_arith)
                requires local + 1 <= tile_size, col_len >= 0;
        }
        while t < kvol
            invariant
                g == patch_geom(out_h, out_w, kernel_d, kernel_h, kernel_w, stride_d, stride_h, stride_w, dilation_d,
                    dilation_h, dilation_w, pad_d, pad_h, pad_w, in_d, in_h, in_w, channels_per_group, col_len,
                    nhwc_stride.3),
                im2col_ok(g, old_col.len() as int, xs.len() as int, tile_start as int, tile_end as int, b as int, in_c_start as int, nhwc_stride),
                xs == x_nhwc@,
                xs.len() == x_len,
                old_col.len() == col_total,
            xs.len() == x_len,
            old_col.len() == col_total,
                tile_size == tile_end - tile_start,
                kvol == kernel_d * kernel_h * kernel_w,
                local < tile_size,
                global == tile_start + local,
                ohw == out_h * out_w,
                (out_d_idx as int, out_h_idx as int, out_w_idx as int) == out_coords(global as int, out_h as int, out_w as int),
                t <= kvol,
                (local + 1) * col_len <= tile_size * col_len,
                (local + 1) * col_len == local * col_len + col_len,
                col_tile@.len() == old_col.len(),
                forall|j: int|
                    0 <= j < old_col.len() ==> #[trigger] col_tile@[j] == if j < local * col_len + t * channels_per_group {
                        im2col_value(g, old_col, xs, tile_start as int, tile_size as int, b as int, in_c_start as int, j)
                    } else {
                        old_col[j]
                    },
            decreases kvol - t,
        {
            assert(kernel_h > 0 && kernel_w > 0) by (nonlinear_arith)
                requires t < kernel_d * kernel_h * kernel_w, kernel_d >= 0, kernel_h >= 0, kernel_w >= 0;
            let (kd, kh, kw) = unflatten3_exec(t, kernel_d, kernel_h, kernel_w);
            let id = tap_index(out_d_idx, kd, stride_d, dilation_d, pad_d, in_d);
            let ih = tap_index(out_h_idx, kh, stride_h, dilation_h, pad_h, in_h);
            let iw = tap_index(out_w_idx, kw, stride_w, dilation_w, pad_w, in_w);
            proof {
                assert(t * channels_per_group + channels_per_group <= col_len) by (nonlinear_arith)
                    requires t + 1 <= kvol, col_len == channels_per_group * kvol, channels_per_group >= 0;
                lemma_mul_nonneg(t as int, channels_per_group as int);
            }
            match (id, ih, iw) {
                (Option::Some(id), Option::Some(ih), Option::Some(iw)) => {
                    proof {
                        lemma_nhwc_index(g, nhwc_stride, b as int, id as int, ih as int, iw as int, in_c_start as int);
                    }
                    let inp_base = b * nhwc_stride.0 + id * nhwc_stride.1 + ih * nhwc_stride.2 + iw * nhwc_stride.3
                        + in_c_start;
                    let row = local * col_len + t * channels_per_group;
                    let mut c: usize = 0;
                    while c < channels_per_group
                        invariant
                            g == patch_geom(out_h, out_w, kernel_d, kernel_h, kernel_w, stride_d, stride_h, stride_w,
                                dilation_d, dilation_h, dilation_w, pad_d, pad_h, pad_w, in_d, in_h, in_w,
                                channels_per_group, col_len, nhwc_stride.3),
                            im2col_ok(g, old_col.len() as int, xs.len() as int, tile_start as int, tile_end as int, b as int, in_c_start as int, nhwc_stride),
                            xs == x_nhwc@,
                            xs.len() == x_len,
                            old_col.len() == col_total,
                xs.len() == x_len,
                old_col.len() == col_total,
            xs.len() == x_len,
            old_col.len() == col_total,
                            tile_size == tile_end - tile_start,
                            kvol == kernel_d * kernel_h * kernel_w,
                            local < tile_size,
                            t < kvol,
                            global == tile_start + local,
                            (out_d_idx as int, out_h_idx as int, out_w_idx as int) == out_coords(global as int, out_h as int, out_w as int),
                            (kd as int, kh as int, kw as int) == unflatten3(t as int, kernel_h as int, kernel_w as int),
                            id as int == pool_tap(out_d_idx as int, kd as int, stride_d as int, dilation_d as int, pad_d as int),
                            ih as int == pool_tap(out_h_idx as int, kh as int, stride_h as int, dilation_h as int, pad_h as int),
                            iw as int == pool_tap(out_w_idx as int, kw as int, stride_w as int, dilation_w as int, pad_w as int),
                            id < in_d,
                            ih < in_h,
                            iw < in_w,
                            inp_base == b * nhwc_stride.0 + id * nhwc_stride.1 + ih * nhwc_stride.2 + iw * nhwc_stride.3 + in_c_start,
                            row == local * col_len + t * channels_per_group,
                            c <= channels_per_group,
                            col_tile@.len() == old_col.len(),
                            forall|j: int|
                                0 <= j < old_col.len() ==> #[trigger] col_tile@[j] == if j < row + c {
                                    im2col_value(g, old_col, xs, tile_start as int, tile_size as int, b as int, in_c_start as int, j)
                                } else {
                                    old_col[j]
                                },
                        decreases channels_per_group - c,
                    {
                        proof {
                            lemma_patch_offset(local as int, t as int, c as int, kvol as int, channels_per_group as int, col_len as int, tile_size as int);
                            lemma_nhwc_index(g, nhwc_stride, b as int, id as int, ih as int, iw as int, in_c_start + c);
                        }
                        let v = x_nhwc[inp_base + c];
                        let ghost j0 = (row + c) as int;
                        col_tile[row + c] = v;
                        proof {
                            assert(col_tile@[j0] == im2col_value(g, old_col, xs, tile_start as int, tile_size as int, b as int, in_c_start as int, j0));
                        }
                        c += 1;
                    }
                },
                _ => {
                    proof {
                        assert forall|j: int|
                            local * col_len + t * channels_per_group <= j < local * col_len + t * channels_per_group + channels_per_group
                            implies im2col_value(g, old_col, xs, tile_start as int, tile_size as int, b as int, in_c_start as int, j) == old_col[j] by {
                            lemma_patch_offset(local as int, t as int, j - local * col_len - t * channels_per_group, kvol as int, channels_per_group as int, col_len as int, tile_size as int);
                        }
                    }
                },
            }
            t += 1;
            proof {
                assert(local * col_len + (t - 1) * channels_per_group + channels_per_group == local * col_len + t * channels_per_group) by (nonlinear_arith);
            }
        }
        proof {
            assert(kvol * channels_per_group == col_len) by (nonlinear_arith)
                requires col_len == channels_per_group * kvol;
        }
        local += 1;
    }
}

/// Row-major offset of `(b, c, d, h, w)` in a `[batch, channels, d, h, w]`
/// buffer.
pub open spec fn ncdhw_offset(b: int, c: int, d: int, h: int, w: int, channels: int, in_d: int, in_h: int, in_w: int) -> int {
    (((b * channels + c) * in_d + d) * in_h + h) * in_w + w
}

/// The `[batch, channels, d, h, w]` offset of element `j` of the
/// channels-last copy.
pub open spec fn nhwc_source(j: int, channels: int, in_d: int, in_h: int, in_w: int) -> int {
    let c = j % channels;
    let p = j / channels;
    let w = p % in_w;
    let h = (p / in_w) % in_h;
    let d = (p / in_w / in_h) % in_d;
    let b = p / in_w / in_h / in_d;
    ncdhw_offset(b, c, d, h, w, channels, in_d, in_h, in_w)
}

/// Splitting a channels-last offset recovers its coordinates.
proof fn lemma_nhwc_source(b: int, d: int, h: int, w: int, c: int, channels: int, in_d: int, in_h: int, in_w: int)
    requires
        b >= 0,
        0 <= d < in_d,
        0 <= h < in_h,
        0 <= w < in_w,
        0 <= c < channels,
    ensures
        nhwc_source(ndhwc_offset(b, d, h, w, c, in_d, in_h, in_w, channels), channels, in_d, in_h, in_w)
            == ncdhw_offset(b, c, d, h, w, channels, in_d, in_h, in_w),
{
    let e1 = b * in_d + d;
    let e2 = e1 * in_h + h;
    let e3 = e2 * in_w + w;
    lemma_mul_nonneg(b, in_d);
    lemma_mul_nonneg(e1, in_h);
    lemma_mul_nonneg(e2, in_w);
    lemma_div_mod_offset(e3, c, channels);
    lemma_div_mod_offset(e2, w, in_w);
    lemma_div_mod_offset(e1, h, in_h);
    lemma_div_mod_offset(b, d, in_d);
}

/// Channels-last copy of a `[batch, channels, d, h, w]` input.
fn to_channels_last<T: Copy>(x: &Vec<T>, batch: usize, channels: usize, in_d: usize, in_h: usize, in_w: usize) -> (r: Vec<T>)
    requires
        x@.len() == batch * channels * in_d * in_h * in_w,
    ensures
        r@.len() == x@.len(),
        forall|b: int, d: int, h: int, w: int, c: int|
            0 <= b < batch && 0 <= d < in_d && 0 <= h < in_h && 0 <= w < in_w && 0 <= c < channels ==> r@[#[trigger] ndhwc_offset(
                b,
                d,
                h,
                w,
                c,
                in_d as int,
                in_h as int,
                in_w as int,
                channels as int,
            )] == x@[ncdhw_offset(b, c, d, h, w, channels as int, in_d as int, in_h as int, in_w as int)],
{
    let total = x.len();
    let mut r: Vec<T> = Vec::new();
    let mut j: usize = 0;
    while j < total
        invariant
            total == x@.len(),
            total == batch * channels * in_d * in_h * in_w,
            j <= total,
            r@.len() == j,
            forall|k: int|
                0 <= k < j ==> #[trigger] r@[k] == x@[nhwc_source(k, channels as int, in_d as int, in_h as int, in_w as int)],
        decreases total - j,
    {
        proof {
            assert(channels > 0 && in_w > 0 && in_h > 0 && in_d > 0) by (nonlinear_arith)
                requires j < batch * channels * in_d * in_h * in_w, batch >= 0, channels >= 0, in_d >= 0, in_h >= 0, in_w >= 0;
            assert(total == (batch * in_d * in_h * in_w) * channels) by (nonlinear_arith)
                requires total == batch * channels * in_d * in_h * in_w;
            let ji = j as int;
            let p1 = ji / (channels as int);
            let p2 = p1 / (in_w as int);
            let p3 = p2 / (in_h as int);
            lemma_div_lt(ji, batch * in_d * in_h * in_w, channels as int);
            lemma_div_lt(p1, batch * in_d * in_h, in_w as int);
            lemma_div_lt(p2, batch * in_d, in_h as int);
            lemma_div_lt(p3, batch as int, in_d as int);
        }
        let c = j % channels;
        let p = j / channels;
        let w = p % in_w;
        let h = (p / in_w) % in_h;
        let d = (p / in_w / in_h) % in_d;
        let b = p / in_w / in_h / in_d;
        proof {
            lemma_offset2(b as int, c as int, batch as int, channels as int);
            lemma_offset2(b * channels + c, d as int, batch * channels, in_d as int);
            lemma_offset2((b * channels + c) * in_d + d, h as int, batch * channels * in_d, in_h as int);
            lemma_offset2(((b * channels + c) * in_d + d) * in_h + h, w as int, batch * channels * in_d * in_h, in_w as int);
            assert(batch * channels <= batch * channels * in_d) by (nonlinear_arith)
                requires in_d >= 1, batch * channels >= 0;
            assert(batch * channels * in_d <= batch * channels * in_d * in_h) by (nonlinear_arith)
                requires in_h >= 1, batch * channels * in_d >= 0;
            assert(batch * channels * in_d * in_h <= batch * channels * in_d * in_h * in_w) by (nonlinear_arith)
                requires in_w >= 1, batch * channels * in_d * in_h >= 0;
            lemma_mul_nonneg(b as int, channels as int);
        }
        let src = (((b * channels + c) * in_d + d) * in_h + h) * in_w + w;
        r.push(x[src]);
        j += 1;
    }
    proof {
        assert forall|b: int, d: int, h: int, w: int, c: int|
            0 <= b < batch && 0 <= d < in_d && 0 <= h < in_h && 0 <= w < in_w && 0 <= c < channels implies r@[#[trigger] ndhwc_offset(
                b,
                d,
                h,
                w,
                c,
                in_d as int,
                in_h as int,
                in_w as int,
                channels as int,
            )] == x@[ncdhw_offset(b, c, d, h, w, channels as int, in_d as int, in_h as int, in_w as int)] by {
            lemma_nhwc_source(b, d, h, w, c, channels as int, in_d as int, in_h as int, in_w as int);
            let g = PatchGeom {
                out_h: 0,
                out_w: 0,
                kernel_d: 0,
                kernel_h: 0,
                kernel_w: 0,
                stride_d: 0,
                stride_h: 0,
                stride_w: 0,
                dilation_d: 0,
                dilation_h: 0,
                dilation_w: 0,
                pad_d: 0,
                pad_h: 0,
                pad_w: 0,
                in_d,
                in_h,
                in_w,
                channels_per_group: 0,
                col_len: 0,
                channels,
            };
            lemma_nhwc_bound(g, b, d, h, w, c, batch as int);
        }
    }
    r
}

/// A channels-last offset of an element of the first `batch` images lies in
/// a buffer of `batch` images.
proof fn lemma_nhwc_bound(g: PatchGeom, b: int, d: int, h: int, w: int, c: int, batch: int)
    requires
        0 <= b < batch,
        0 <= d < g.in_d,
        0 <= h < g.in_h,
        0 <= w < g.in_w,
        0 <= c < g.channels,
    ensures
        0 <= ndhwc_offset(b, d, h, w, c, g.in_d as int, g.in_h as int, g.in_w as int, g.channels as int) < batch * g.channels * g.in_d * g.in_h * g.in_w,
{
    let stride = (
        (g.in_d * g.in_h * g.in_w * g.channels) as usize,
        (g.in_h * g.in_w * g.channels) as usize,
        (g.in_w * g.channels) as usize,
        g.channels,
        1usize,
    );
    lemma_mul_nonneg(g.in_d as int, g.in_h as int);
    lemma_mul_nonneg(g.in_d * g.in_h, g.in_w as int);
    lemma_mul_nonneg(g.in_d * g.in_h * g.in_w, g.channels as int);
    lemma_mul_nonneg(g.in_h as int, g.in_w as int);
    lemma_mul_nonneg(g.in_h * g.in_w, g.channels as int);
    lemma_mul_nonneg(g.in_w as int, g.channels as int);
    let e1 = b * g.in_d + d;
    let e2 = e1 * g.in_h + h;
    let e3 = e2 * g.in_w + w;
    lemma_offset2(b, d, batch, g.in_d as int);
    lemma_offset2(e1, h, batch * g.in_d, g.in_h as int);
    lemma_offset2(e2, w, batch * g.in_d * g.in_h, g.in_w as int);
    lemma_offset2(e3, c, batch * g.in_d * g.in_h * g.in_w, g.channels as int);
    assert(batch * g.in_d * g.in_h * g.in_w * g.channels == batch * g.channels * g.in_d * g.in_h * g.in_w) by (nonlinear_arith);
}

/// Entry `j` of the flattened kernel matrix (rows of `cpg * k_sp` entries, one row per
/// output channel, listing taps in order and the group's input channels
/// within each tap) comes from this offset of the `[c_out, cpg, taps]`
/// kernel.
pub open spec fn kernel_source(j: int, cpg: int, k_sp: int) -> int {
    let col_len = cpg * k_sp;
    let rem = j % col_len;
    ((j / col_len) * cpg + rem % cpg) * k_sp + rem / cpg
}

/// Flatten kernel `[c_out, cpg, taps]` to `[c_out, taps, cpg]`: per output
/// channel, a transpose of `(cpg, taps)`.
fn flatten_kernel<T: Copy>(w: &Vec<T>, channels_out: usize, cpg: usize, k_spatial: usize) -> (r: Vec<T>)
    requires
        w@.len() == channels_out * cpg * k_spatial,
    ensures
        r@.len() == w@.len(),
        forall|j: int| 0 <= j < r@.len() ==> #[trigger] r@[j] == w@[kernel_source(j, cpg as int, k_spatial as int)],
{
    let total = w.len();
    let mut r: Vec<T> = Vec::new();
    let mut j: usize = 0;
    proof {
        assert(total == channels_out * (cpg * k_spatial)) by (nonlinear_arith)
            requires total == channels_out * cpg * k_spatial;
    }
    while j < total
        invariant
            total == w@.len(),
            total == channels_out * (cpg * k_spatial),
            j <= total,
            r@.len() == j,
            forall|k: int| 0 <= k < j ==> #[trigger] r@[k] == w@[kernel_source(k, cpg as int, k_spatial as int)],
        decreases total - j,
    {
        proof {
            assert(cpg > 0 && k_spatial > 0 && channels_out > 0) by (nonlinear_arith)
                requires j < channels_out * (cpg * k_spatial), channels_out >= 0, cpg >= 0, k_spatial >= 0;
            assert(cpg * k_spatial > 0) by (nonlinear_arith)
                requires cpg > 0, k_spatial > 0;
            assert(cpg * k_spatial <= channels_out * (cpg * k_spatial)) by (nonlinear_arith)
                requires channels_out >= 1, cpg * k_spatial >= 0;
            lemma_div_lt(j as int, channels_out as int, cpg * k_spatial);
            assert(k_spatial * cpg == cpg * k_spatial) by (nonlinear_arith);
            lemma_div_lt(j as int % (cpg * k_spatial), k_spatial as int, cpg as int);
        }
        let col_len = cpg * k_spatial;
        let c_out = j / col_len;
        let rem = j % col_len;
        let k = rem / cpg;
        let c_in = rem % cpg;
        proof {
            lemma_offset2(c_out as int, c_in as int, channels_out as int, cpg as int);
            lemma_offset2(c_out * cpg + c_in, k as int, channels_out * cpg, k_spatial as int);
            assert(channels_out * cpg * k_spatial == channels_out * (cpg * k_spatial)) by (nonlinear_arith);
            assert(channels_out * cpg <= channels_out * cpg * k_spatial) by (nonlinear_arith)
                requires k_spatial >= 1, channels_out * cpg >= 0;
            lemma_mul_nonneg(c_out as int, cpg as int);
        }
        r.push(w[(c_out * cpg + c_in) * k_spatial + k]);
        j += 1;
    }
    r
}

/// Output positions are processed in tiles of this many positions.
pub const TILE_SIZE: usize = 512;

/// Length of the tile starting at `start` of `spatial` output positions.
pub open spec fn tile_len(spatial: int, start: int) -> int {
    if start + TILE_SIZE <= spatial { TILE_SIZE as int } else { spatial - start }
}

/// Element `i` of a `[batch, c_out, spatial]` buffer lies in the block of
/// batch `b`, output channels `[ocs, ocs + ocpg)` and positions
/// `[ts0, ts0 + ts)`.
pub open spec fn in_block(i: int, c_out: int, spatial: int, b: int, ocs: int, ocpg: int, ts0: int, ts: int) -> bool {
    let q = i / spatial;
    let s = i % spatial;
    &&& q / c_out == b
    &&& ocs <= q % c_out < ocs + ocpg
    &&& ts0 <= s < ts0 + ts
}

/// The value a block element takes from a `[ocpg, ts]` product.
pub open spec fn block_source(i: int, c_out: int, spatial: int, ocs: int, ts0: int, ts: int) -> int {
    ((i / spatial) % c_out - ocs) * ts + (i % spatial - ts0)
}

/// Write the `[ocpg, tile_size]` product of one tile and group into its
/// block of the `[batch, c_out, spatial]` output.
fn scatter_block<T: Copy>(
    output: &mut Vec<T>,
    result: &Vec<T>,
    b: usize,
    channels_out: usize,
    spatial: usize,
    out_c_start: usize,
    ocpg: usize,
    tile_start: usize,
    tile_size: usize,
)
    requires
        (b + 1) * channels_out * spatial <= old(output)@.len(),
        out_c_start + ocpg <= channels_out,
        tile_start + tile_size <= spatial,
        ocpg * tile_size <= result@.len(),
    ensures
        final(output)@.len() == old(output)@.len(),
        forall|i: int|
            0 <= i < old(output)@.len() ==> #[trigger] final(output)@[i] == if in_block(
                i,
                channels_out as int,
                spatial as int,
                b as int,
                out_c_start as int,
                ocpg as int,
                tile_start as int,
                tile_size as int,
            ) {
                result@[block_source(i, channels_out as int, spatial as int, out_c_start as int, tile_start as int, tile_size as int)]
            } else {
                old(output)@[i]
            },
{
    let ghost init = output@;
    let len = output.len();
    let rlen = result.len();
    let mut local: usize = 0;
    while local < tile_size
        invariant
            (b + 1) * channels_out * spatial <= init.len(),
            out_c_start + ocpg <= channels_out,
            tile_start + tile_size <= spatial,
            ocpg * tile_size <= result@.len(),
            result@.len() == rlen,
            local <= tile_size,
            output@.len() == init.len(),
            init.len() == len,
            forall|i: int|
                0 <= i < init.len() ==> #[trigger] output@[i] == if in_block(
                    i,
                    channels_out as int,
                    spatial as int,
                    b as int,
                    out_c_start as int,
                    ocpg as int,
                    tile_start as int,
                    tile_size as int,
                ) && (i % spatial as int) - tile_start < local {
                    result@[block_source(i, channels_out as int, spatial as int, out_c_start as int, tile_start as int, tile_size as int)]
                } else {
                    init[i]
                },
        decreases tile_size - local,
    {
        let global = tile_start + local;
        let mut c_out: usize = 0;
        while c_out < ocpg
            invariant
                (b + 1) * channels_out * spatial <= init.len(),
                out_c_start + ocpg <= channels_out,
                tile_start + tile_size <= spatial,
                ocpg * tile_size <= result@.len(),
                result@.len() == rlen,
                local < tile_size,
                global == tile_start + local,
                c_out <= ocpg,
                output@.len() == init.len(),
                init.len() == len,
                forall|i: int|
                    0 <= i < init.len() ==> #[trigger] output@[i] == if in_block(
                        i,
                        channels_out as int,
                        spatial as int,
                        b as int,
                        out_c_start as int,
                        ocpg as int,
                        tile_start as int,
                        tile_size as int,
                    ) && ((i % spatial as int) - tile_start < local || ((i % spatial as int) - tile_start == local
                        && (i / spatial as int) % channels_out as int - out_c_start < c_out)) {
                        result@[block_source(i, channels_out as int, spatial as int, out_c_start as int, tile_start as int, tile_size as int)]
                    } else {
                        init[i]
                    },
            decreases ocpg - c_out,
        {
            let ghost q = b * channels_out + out_c_start + c_out;
            proof {
                assert(b * channels_out * spatial + (out_c_start + c_out) * spatial + global == q * spatial + global) by (nonlinear_arith)
                    requires q == b * channels_out + out_c_start + c_out;
                assert((b + 1) * channels_out == b * channels_out + channels_out) by (nonlinear_arith);
                lemma_offset2(q, global as int, (b + 1) * channels_out, spatial as int);
                assert((b + 1) * channels_out * spatial == ((b + 1) * channels_out) * spatial) by (nonlinear_arith);
                lemma_div_mod_offset(q, global as int, spatial as int);
                lemma_div_mod_offset(b as int, out_c_start + c_out, channels_out as int);
                lemma_offset2(c_out as int, local as int, ocpg as int, tile_size as int);
                lemma_mul_nonneg(b as int, channels_out as int);
                lemma_mul_nonneg(b * channels_out, spatial as int);
                lemma_mul_nonneg((out_c_start + c_out) as int, spatial as int);
            }
            let dst = b * channels_out * spatial + (out_c_start + c_out) * spatial + global;
            let res = c_out * tile_size + local;
            let v = result[res];
            let ghost before = output@;
            output.set(dst, v);
            proof {
                assert forall|i: int| 0 <= i < init.len() && i != dst implies #[trigger] output@[i] == before[i] by {}
                assert forall|i: int|
                    0 <= i < init.len() implies #[trigger] output@[i] == if in_block(
                        i,
                        channels_out as int,
                        spatial as int,
                        b as int,
                        out_c_start as int,
                        ocpg as int,
                        tile_start as int,
                        tile_size as int,
                    ) && ((i % spatial as int) - tile_start < local || ((i % spatial as int) - tile_start == local
                        && (i / spatial as int) % channels_out as int - out_c_start < c_out + 1)) {
                        result@[block_source(i, channels_out as int, spatial as int, out_c_start as int, tile_start as int, tile_size as int)]
                    } else {
                        init[i]
                    } by {
                    if i != dst {
                        let qi = i / spatial as int;
                        let si = i % spatial as int;
                        if si - tile_start == local && qi % channels_out as int - out_c_start == c_out
                            && qi / channels_out as int == b {
                            vstd::arithmetic::div_mod::lemma_fundamental_div_mod(i, spatial as int);
                            vstd::arithmetic::div_mod::lemma_fundamental_div_mod(qi, channels_out as int);
                            assert(qi == q) by (nonlinear_arith)
                                requires
                                    qi == channels_out * (qi / channels_out as int) + qi % channels_out as int,
                                    qi / channels_out as int == b,
                                    qi % channels_out as int == out_c_start + c_out,
                                    q == b * channels_out + out_c_start + c_out;
                            assert(i == dst) by (nonlinear_arith)
                                requires
                                    i == spatial * qi + si,
                                    qi == q,
                                    si == global,
                                    dst == q * spatial + global;
                        }
                    }
                }
            }
            c_out += 1;
        }
        local += 1;
    }
}

/// The patch geometry of a convolution of a `[batch, c_in, d, h, w]` input
/// with a `[c_out, c_in / groups, kd, kh, kw]` kernel.
pub open spec fn conv_patch_geom(x_shape: Seq<usize>, w_shape: Seq<usize>, options: ConvOptions<3>) -> PatchGeom {
    PatchGeom {
        out_h: conv_out_len(w_shape[3] as int, options.stride[1] as int, options.padding[1] as int, options.dilation[1] as int, x_shape[3] as int) as usize,
        out_w: conv_out_len(w_shape[4] as int, options.stride[2] as int, options.padding[2] as int, options.dilation[2] as int, x_shape[4] as int) as usize,
        kernel_d: w_shape[2],
        kernel_h: w_shape[3],
        kernel_w: w_shape[4],
        stride_d: options.stride[0],
        stride_h: options.stride[1],
        stride_w: options.stride[2],
        dilation_d: options.dilation[0],
        dilation_h: options.dilation[1],
        dilation_w: options.dilation[2],
        pad_d: options.padding[0],
        pad_h: options.padding[1],
        pad_w: options.padding[2],
        in_d: x_shape[2],
        in_h: x_shape[3],
        in_w: x_shape[4],
        channels_per_group: w_shape[1],
        col_len: (w_shape[1] * (w_shape[2] * w_shape[3] * w_shape[4])) as usize,
        channels: x_shape[1],
    }
}

/// Output depth of a convolution.
pub open spec fn conv_out_d(x_shape: Seq<usize>, w_shape: Seq<usize>, options: ConvOptions<3>) -> int {
    conv_out_len(w_shape[2] as int, options.stride[0] as int, options.padding[0] as int, options.dilation[0] as int, x_shape[2] as int)
}

/// The patch matrix of batch `b`, group `grp` and output positions
/// `[tile_start, tile_start + tile_size)`: one row per position, holding the
/// input values its patch reads and `zero` where it reads padding.
pub open spec fn patch_matrix<T>(x: Seq<T>, zero: T, g: PatchGeom, b: int, grp: int, tile_start: int, tile_size: int) -> Seq<T> {
    Seq::new(
        (tile_size * g.col_len) as nat,
        |j: int|
            {
                let off = j % (g.col_len as int);
                match patch_tap(g, tile_start + j / (g.col_len as int), off) {
                    Option::Some(t) => x[ncdhw_offset(
                        b,
                        grp * g.channels_per_group + off % (g.channels_per_group as int),
                        t.0,
                        t.1,
                        t.2,
                        g.channels as int,
                        g.in_d as int,
                        g.in_h as int,
                        g.in_w as int,
                    )],
                    Option::None => zero,
                }
            },
    )
}

/// The flattened kernel rows of the `ocpg` output channels of group `grp`.
pub open spec fn kernel_matrix<T>(w: Seq<T>, g: PatchGeom, ocpg: int, grp: int) -> Seq<T> {
    Seq::new(
        (ocpg * g.col_len) as nat,
        |j: int| w[kernel_source(grp * ocpg * g.col_len + j, g.channels_per_group as int, (g.kernel_d * g.kernel_h * g.kernel_w) as int)],
    )
}

/// Output element `i` of the general path before the bias is `v`: the entry
/// of its output channel and position in the product `gemm` returned for
/// its group's kernel matrix and its tile's patch matrix.
pub open spec fn gemm_elem<T, G: Fn(&[T], &[T], usize, usize, usize) -> Vec<T>>(
    gemm: G,
    zero: T,
    x: Seq<T>,
    w: Seq<T>,
    g: PatchGeom,
    c_out: int,
    ocpg: int,
    spatial: int,
    i: int,
    v: T,
) -> bool {
    let q = i / spatial;
    let s = i % spatial;
    let b = q / c_out;
    let co = q % c_out;
    let grp = co / ocpg;
    let ts0 = (s / (TILE_SIZE as int)) * (TILE_SIZE as int);
    let ts = tile_len(spatial, ts0);
    exists|lhs: &[T], rhs: &[T], r: Vec<T>|
        #[trigger] call_ensures(gemm, (lhs, rhs, ocpg as usize, g.col_len, ts as usize), r) && lhs@ == kernel_matrix(
            w,
            g,
            ocpg,
            grp,
        ) && rhs@ == patch_matrix(x, zero, g, b, grp, ts0, ts) && v == r@[(co - grp * ocpg) * ts + (s - ts0)]
}

/// Output element `i` of the general path is `r`: its product entry plus
/// the bias of its output channel.
pub open spec fn gemm_out_elem<T, G: Fn(&[T], &[T], usize, usize, usize) -> Vec<T>, A: Fn(T, T) -> T>(
    gemm: G,
    add: A,
    zero: T,
    x: Seq<T>,
    w: Seq<T>,
    bias: Option<Seq<T>>,
    g: PatchGeom,
    c_out: int,
    ocpg: int,
    spatial: int,
    i: int,
    r: T,
) -> bool {
    exists|v: T| #[trigger] gemm_elem(gemm, zero, x, w, g, c_out, ocpg, spatial, i, v) && biased(add, bias, (i / spatial) % c_out, v, r)
}

/// `out` is what the general path computes: every element is taken from
/// the product of its group's kernel matrix with its tile's patch matrix,
/// plus its channel's bias.
pub open spec fn conv_gemm_result<T, G: Fn(&[T], &[T], usize, usize, usize) -> Vec<T>, A: Fn(T, T) -> T>(
    gemm: G,
    add: A,
    zero: T,
    x: Seq<T>,
    x_shape: Seq<usize>,
    w: Seq<T>,
    w_shape: Seq<usize>,
    bias: Option<Seq<T>>,
    options: ConvOptions<3>,
    out: Seq<T>,
) -> bool {
    let g = conv_patch_geom(x_shape, w_shape, options);
    let spatial = conv_out_d(x_shape, w_shape, options) * g.out_h * g.out_w;
    let c_out = w_shape[0] as int;
    let ocpg = c_out / (options.groups as int);
    &&& out.len() == x_shape[0] * c_out * spatial
    &&& forall|i: int|
        0 <= i < out.len() ==> #[trigger] gemm_out_elem(gemm, add, zero, x, w, bias, g, c_out, ocpg, spatial, i, out[i])
}

/// The shapes and options the general path works on: a valid grouping,
/// well-defined output extents, and sizes that fit in `usize`.
pub open spec fn conv3d_ok(x_shape: Seq<usize>, w_shape: Seq<usize>, options: ConvOptions<3>) -> bool {
    let g = conv_patch_geom(x_shape, w_shape, options);
    let out_d = conv_out_d(x_shape, w_shape, options);
    let spatial = out_d * g.out_h * g.out_w;
    let kvol = w_shape[2] * w_shape[3] * w_shape[4];
    &&& x_shape.len() == 5
    &&& w_shape.len() == 5
    &&& options.groups >= 1
    &&& x_shape[1] == options.groups * w_shape[1]
    &&& w_shape[0] % options.groups == 0
    &&& conv_axis_ok(w_shape[2] as int, options.stride[0] as int, options.padding[0] as int, options.dilation[0] as int, x_shape[2] as int)
    &&& conv_axis_ok(w_shape[3] as int, options.stride[1] as int, options.padding[1] as int, options.dilation[1] as int, x_shape[3] as int)
    &&& conv_axis_ok(w_shape[4] as int, options.stride[2] as int, options.padding[2] as int, options.dilation[2] as int, x_shape[4] as int)
    &&& x_shape[0] * w_shape[0] * spatial <= usize::MAX
    &&& spatial <= usize::MAX
    &&& w_shape[1] * kvol <= usize::MAX
    &&& w_shape[2] * w_shape[3] <= usize::MAX
    &&& kvol <= usize::MAX
    &&& w_shape[1] * kvol * tile_len(spatial, 0) <= usize::MAX
    &&& x_shape[2] * x_shape[3] * x_shape[4] * x_shape[1] <= usize::MAX
    &&& x_shape[2] * x_shape[3] * x_shape[4] <= usize::MAX
    &&& x_shape[2] * x_shape[3] <= usize::MAX
    &&& x_shape[3] * x_shape[4] <= usize::MAX
    &&& x_shape[3] * x_shape[4] * x_shape[1] <= usize::MAX
    &&& x_shape[4] * x_shape[1] <= usize::MAX
}

/// Tiles of `TILE_SIZE` positions cover `spatial` positions: tile `t` of
/// `num_tiles` starts inside, and is at most `TILE_SIZE` and at least one
/// position long.
proof fn lemma_tile_bounds(tile: int, spatial: int, num_tiles: int)
    requires
        spatial >= 0,
        0 <= tile < num_tiles,
        num_tiles == spatial / (TILE_SIZE as int) + if spatial % (TILE_SIZE as int) == 0 { 0int } else { 1int },
    ensures
        tile * (TILE_SIZE as int) < spatial,
        1 <= tile_len(spatial, tile * (TILE_SIZE as int)) <= TILE_SIZE,
        tile_len(spatial, tile * (TILE_SIZE as int)) <= tile_len(spatial, 0),
{
    vstd::arithmetic::div_mod::lemma_fundamental_div_mod(spatial, TILE_SIZE as int);
    vstd::arithmetic::div_mod::lemma_mod_bound(spatial, TILE_SIZE as int);
    let q = spatial / (TILE_SIZE as int);
    if tile < q {
        assert(tile * (TILE_SIZE as int) + (TILE_SIZE as int) <= q * (TILE_SIZE as int)) by (nonlinear_arith)
            requires tile + 1 <= q;
    } else {
        assert(tile == q);
    }
}

/// `s / d == k` exactly when `s` lies in `[k * d, k * d + d)`.
proof fn lemma_div_band(s: int, d: int, k: int)
    requires
        s >= 0,
        d > 0,
    ensures
        s / d == k <==> k * d <= s < k * d + d,
{
    vstd::arithmetic::div_mod::lemma_fundamental_div_mod(s, d);
    vstd::arithmetic::div_mod::lemma_mod_bound(s, d);
    let q = s / d;
    assert(d * q == q * d) by (nonlinear_arith);
    if q < k {
        assert(q * d + d <= k * d) by (nonlinear_arith)
            requires q + 1 <= k, d > 0;
    }
    if q > k {
        assert(k * d + d <= q * d) by (nonlinear_arith)
            requires k + 1 <= q, d > 0;
    }
}

/// The block the general path writes for batch `b`, tile `tile` and group
/// `grp` is exactly the set of elements with those coordinates.
proof fn lemma_block_cell(i: int, c_out: int, spatial: int, ocpg: int, b: int, tile: int, grp: int)
    requires
        i >= 0,
        c_out > 0,
        spatial > 0,
        ocpg > 0,
        tile >= 0,
        grp >= 0,
        tile * (TILE_SIZE as int) < spatial,
    ensures
        ({
            let q = i / spatial;
            let s = i % spatial;
            let ts0 = tile * (TILE_SIZE as int);
            in_block(i, c_out, spatial, b, grp * ocpg, ocpg, ts0, tile_len(spatial, ts0)) <==> (q / c_out == b && s
                / (TILE_SIZE as int) == tile && (q % c_out) / ocpg == grp)
        }),
{
    let q = i / spatial;
    let s = i % spatial;
    assert(q >= 0) by (nonlinear_arith)
        requires i >= 0, spatial > 0, q == i / spatial;
    vstd::arithmetic::div_mod::lemma_mod_bound(i, spatial);
    vstd::arithmetic::div_mod::lemma_mod_bound(q, c_out);
    lemma_div_band(s, TILE_SIZE as int, tile);
    lemma_div_band(q % c_out, ocpg, grp);
}

/// Every output channel lies in one of the groups, and every position in
/// one of the tiles.
proof fn lemma_cells_covered(co: int, ocpg: int, groups: int, s: int, spatial: int, num_tiles: int)
    requires
        0 <= co < groups * ocpg,
        ocpg > 0,
        0 <= s < spatial,
        num_tiles == spatial / (TILE_SIZE as int) + if spatial % (TILE_SIZE as int) == 0 { 0int } else { 1int },
    ensures
        co / ocpg < groups,
        s / (TILE_SIZE as int) < num_tiles,
{
    vstd::arithmetic::div_mod::lemma_fundamental_div_mod(co, ocpg);
    vstd::arithmetic::div_mod::lemma_mod_bound(co, ocpg);
    if co / ocpg >= groups {
        assert(ocpg * (co / ocpg) >= ocpg * groups) by (nonlinear_arith)
            requires co / ocpg >= groups, ocpg > 0;
        assert(ocpg * groups == groups * ocpg) by (nonlinear_arith);
    }
    vstd::arithmetic::div_mod::lemma_div_is_ordered(s, spatial, TILE_SIZE as int);
    vstd::arithmetic::div_mod::lemma_fundamental_div_mod(spatial, TILE_SIZE as int);
    vstd::arithmetic::div_mod::lemma_fundamental_div_mod(s, TILE_SIZE as int);
    vstd::arithmetic::div_mod::lemma_mod_bound(s, TILE_SIZE as int);
}

/// Which elements the general path has written before batch `b`, tile
/// `tile`, group `grp`.
pub open spec fn gemm_done(i: int, c_out: int, spatial: int, ocpg: int, b: int, tile: int, grp: int) -> bool {
    let q = i / spatial;
    let s = i % spatial;
    let bi = q / c_out;
    let co = q % c_out;
    ||| bi < b
    ||| (bi == b && s / (TILE_SIZE as int) < tile)
    ||| (bi == b && s / (TILE_SIZE as int) == tile && co / ocpg < grp)
}

/// Generic 3D convolution implementation using tiled im2col.
///
/// The input is converted to channels-last order and the kernel flattened
/// to `[c_out, taps, c_in / groups]`. Output positions are processed in
/// tiles of `TILE_SIZE`; for each batch, tile and group the patch matrix is
/// built and multiplied with the group's kernel rows by `gemm_fn`, which
/// takes `(lhs, rhs, m, k, n)` with `lhs` row-major `[m, k]` and `rhs`
/// row-major `[n, k]` and returns the row-major `[m, n]` product. The
/// product is written to the output, and the bias is added last.
#[verifier::loop_isolation(false)]
pub fn conv3d_impl<T: Copy, G: Fn(&[T], &[T], usize, usize, usize) -> Vec<T>, A: Fn(T, T) -> T>(
    x: HostTensor<T>,
    weight: HostTensor<T>,
    bias: Option<HostTensor<T>>,
    options: &ConvOptions<3>,
    dtype: DType,
    zero: T,
    gemm_fn: &G,
    add_fn: &A,
) -> (r: HostTensor<T>)
    requires
        x.wf(),
        weight.wf(),
        conv3d_ok(x.shape@, weight.shape@, *options),
        match bias {
            Option::Some(b) => b.data@.len() >= weight.shape@[0],
            Option::None => true,
        },
        forall|a: &[T], b: &[T], m: usize, k: usize, n: usize| call_requires(*gemm_fn, (a, b, m, k, n)),
        forall|a: &[T], b: &[T], m: usize, k: usize, n: usize, p: Vec<T>|
            call_ensures(*gemm_fn, (a, b, m, k, n), p) ==> p@.len() == m * n,
        forall|a: T, b: T| call_requires(*add_fn, (a, b)),
    ensures
        r.shape@ == seq![
            x.shape@[0],
            weight.shape@[0],
            conv_out_d(x.shape@, weight.shape@, *options) as usize,
            conv_patch_geom(x.shape@, weight.shape@, *options).out_h,
            conv_patch_geom(x.shape@, weight.shape@, *options).out_w,
        ],
        r.dtype == dtype,
        r.wf(),
        conv_gemm_result(*gemm_fn, *add_fn, zero, x.data@, x.shape@, weight.data@, weight.shape@, bias_data(bias), *options, r.data@),
{
    let ghost pg = conv_patch_geom(x.shape@, weight.shape@, *options);
    let ghost xs = x.data@;
    let ghost ws = weight.data@;
    let batch_size = x.shape[0];
    let channels_in = x.shape[1];
    let in_d = x.shape[2];
    let in_h = x.shape[3];
    let in_w = x.shape[4];
    let channels_out = weight.shape[0];
    let channels_per_group = weight.shape[1];
    let kernel_d = weight.shape[2];
    let kernel_h = weight.shape[3];
    let kernel_w = weight.shape[4];
    let stride_d = options.stride[0];
    let stride_h = options.stride[1];
    let stride_w = options.stride[2];
    let pad_d = options.padding[0];
    let pad_h = options.padding[1];
    let pad_w = options.padding[2];
    let dilation_d = options.dilation[0];
    let dilation_h = options.dilation[1];
    let dilation_w = options.dilation[2];
    let groups = options.groups;
    let out_channels_per_group = channels_out / groups;
    let out_d = calculate_conv_output_size(kernel_d, stride_d, pad_d, dilation_d, in_d);
    let out_h = calculate_conv_output_size(kernel_h, stride_h, pad_h, dilation_h, in_h);
    let out_w = calculate_conv_output_size(kernel_w, stride_w, pad_w, dilation_w, in_w);
    proof {
        lemma_numel_5(x.shape@);
        lemma_numel_5(weight.shape@);
        lemma_mul_nonneg(out_d as int, out_h as int);
        lemma_mul_nonneg(kernel_d as int, kernel_h as int);
        assert(out_d * out_h <= out_d * out_h * out_w) by (nonlinear_arith)
            requires out_w >= 1, out_d * out_h >= 0;
        assert(out_h * out_w <= out_d * out_h * out_w) by (nonlinear_arith)
            requires out_d >= 1, out_h >= 0, out_w >= 0;
        assert(out_h * out_w >= 1) by (nonlinear_arith)
            requires out_h >= 1, out_w >= 1;
        vstd::arithmetic::div_mod::lemma_fundamental_div_mod(channels_out as int, groups as int);
        assert(channels_out == groups * out_channels_per_group);
        assert(out_channels_per_group <= channels_out) by (nonlinear_arith)
            requires channels_out == groups * out_channels_per_group, groups >= 1, out_channels_per_group >= 0;
    }
    let spatial_out = out_d * out_h * out_w;
    let k_spatial = kernel_d * kernel_h * kernel_w;
    let col_len = channels_per_group * k_spatial;
    proof {
        assert(ws.len() == channels_out * channels_per_group * k_spatial) by (nonlinear_arith)
            requires ws.len() == channels_out * channels_per_group * kernel_d * kernel_h * kernel_w, k_spatial == kernel_d * kernel_h * kernel_w;
        assert(ws.len() == channels_out * col_len) by (nonlinear_arith)
            requires ws.len() == channels_out * channels_per_group * k_spatial, col_len == channels_per_group * k_spatial;
        assert(pg.col_len == col_len);
        assert(pg.out_h == out_h && pg.out_w == out_w);
    }
    let w_flat = flatten_kernel(&weight.data, channels_out, channels_per_group, k_spatial);
    let x_nhwc = to_channels_last(&x.data, batch_size, channels_in, in_d, in_h, in_w);
    let dhw = in_d * in_h * in_w;
    proof {
        lemma_mul_nonneg(in_d as int, in_h as int);
        lemma_mul_nonneg(in_h as int, in_w as int);
        lemma_mul_nonneg(in_w as int, channels_in as int);
        lemma_mul_nonneg(in_h * in_w, channels_in as int);
        lemma_mul_nonneg(dhw as int, channels_in as int);
        assert(in_h * in_w * channels_in <= dhw * channels_in || in_d == 0) by (nonlinear_arith)
            requires dhw == in_d * in_h * in_w, in_d >= 0, in_h * in_w * channels_in >= 0;
        assert(in_w * channels_in <= in_h * in_w * channels_in || in_h == 0) by (nonlinear_arith)
            requires in_h >= 0, in_w * channels_in >= 0;
        if in_d == 0 || in_h == 0 {
            assert(dhw * channels_in == 0) by (nonlinear_arith)
                requires dhw == in_d * in_h * in_w, in_d == 0 || in_h == 0;
        }
    }
    let nhwc_stride = (dhw * channels_in, in_h * in_w * channels_in, in_w * channels_in, channels_in, 1usize);
    let num_tiles = div_ceil(spatial_out, TILE_SIZE);
    proof {
        lemma_mul_nonneg(batch_size as int, channels_out as int);
        assert(spatial_out >= 1) by (nonlinear_arith)
            requires spatial_out == out_d * out_h * out_w, out_d >= 1, out_h * out_w >= 1;
        assert(batch_size * channels_out <= batch_size * channels_out * spatial_out) by (nonlinear_arith)
            requires spatial_out >= 1, batch_size * channels_out >= 0;
    }
    let total = batch_size * channels_out * spatial_out;
    let mut output = filled(zero, total);
    let ghost gemm = *gemm_fn;
    proof {
        assert(x_nhwc@.len() == batch_size * (dhw * channels_in)) by (nonlinear_arith)
            requires x_nhwc@.len() == batch_size * channels_in * in_d * in_h * in_w, dhw == in_d * in_h * in_w;
    }
    proof {
        assert forall|i: int| 0 <= i < total implies !gemm_done(i, channels_out as int, spatial_out as int, out_channels_per_group as int, 0, 0, 0) by {
            let q = i / spatial_out as int;
            let si = i % spatial_out as int;
            assert(channels_out > 0) by (nonlinear_arith)
                requires 0 <= i < total, total == batch_size * channels_out * spatial_out, batch_size >= 0, spatial_out >= 0, channels_out >= 0;
            assert(out_channels_per_group > 0) by (nonlinear_arith)
                requires channels_out > 0, channels_out == groups * out_channels_per_group, groups >= 1;
            vstd::arithmetic::div_mod::lemma_mod_bound(i, spatial_out as int);
            assert(q >= 0) by (nonlinear_arith)
                requires i >= 0, spatial_out > 0, q == i / spatial_out as int;
            assert(q / channels_out as int >= 0) by (nonlinear_arith)
                requires q >= 0, channels_out > 0;
            assert(si / (TILE_SIZE as int) >= 0) by (nonlinear_arith)
                requires si >= 0;
            vstd::arithmetic::div_mod::lemma_mod_bound(q, channels_out as int);
            assert((q % channels_out as int) / (out_channels_per_group as int) >= 0) by (nonlinear_arith)
                requires q % channels_out as int >= 0, out_channels_per_group > 0;
        }
    }
    let mut b: usize = 0;
    while b < batch_size
        invariant
            b <= batch_size,
            output@.len() == total,
            forall|i: int|
                0 <= i < total && gemm_done(i, channels_out as int, spatial_out as int, out_channels_per_group as int, b as int, 0, 0)
                    ==> #[trigger] gemm_elem(gemm, zero, xs, ws, pg, channels_out as int, out_channels_per_group as int, spatial_out as int, i, output@[i]),
        decreases batch_size - b,
    {
        let mut tile_idx: usize = 0;
        while tile_idx < num_tiles
            invariant
                b < batch_size,
                tile_idx <= num_tiles,
                output@.len() == total,
                forall|i: int|
                    0 <= i < total && gemm_done(i, channels_out as int, spatial_out as int, out_channels_per_group as int, b as int, tile_idx as int, 0)
                        ==> #[trigger] gemm_elem(gemm, zero, xs, ws, pg, channels_out as int, out_channels_per_group as int, spatial_out as int, i, output@[i]),
            decreases num_tiles - tile_idx,
        {
            proof {
                lemma_tile_bounds(tile_idx as int, spatial_out as int, num_tiles as int);
            }
            let tile_start = tile_idx * TILE_SIZE;
            let tile_end = if spatial_out - tile_start > TILE_SIZE { tile_start + TILE_SIZE } else { spatial_out };
            let tile_size = tile_end - tile_start;
            proof {
                assert(tile_size == tile_len(spatial_out as int, tile_start as int));
                assert(col_len * tile_size <= col_len * tile_len(spatial_out as int, 0)) by (nonlinear_arith)
                    requires tile_size <= tile_len(spatial_out as int, 0), col_len >= 0;
                assert(col_len * tile_size == tile_size * col_len) by (nonlinear_arith);
            }
            let mut g: usize = 0;
            while g < groups
                invariant
                    b < batch_size,
                    tile_idx < num_tiles,
                    g <= groups,
                    output@.len() == total,
                    forall|i: int|
                        0 <= i < total && gemm_done(i, channels_out as int, spatial_out as int, out_channels_per_group as int, b as int, tile_idx as int, g as int)
                            ==> #[trigger] gemm_elem(gemm, zero, xs, ws, pg, channels_out as int, out_channels_per_group as int, spatial_out as int, i, output@[i]),
                decreases groups - g,
            {
                proof {
                    assert(g * channels_per_group + channels_per_group <= channels_in) by (nonlinear_arith)
                        requires g + 1 <= groups, channels_in == groups * channels_per_group, channels_per_group >= 0;
                    assert(g * out_channels_per_group + out_channels_per_group <= channels_out) by (nonlinear_arith)
                        requires g + 1 <= groups, channels_out == groups * out_channels_per_group, out_channels_per_group >= 0;
                    lemma_mul_nonneg(g as int, channels_per_group as int);
                    lemma_mul_nonneg(g as int, out_channels_per_group as int);
                }
                let in_c_start = g * channels_per_group;
                let out_c_start = g * out_channels_per_group;
                let mut col_tile = filled(zero, col_len * tile_size);
                let ghost zeros = col_tile@;
                proof {
                    assert((b + 1) * (dhw * channels_in) <= batch_size * (dhw * channels_in)) by (nonlinear_arith)
                        requires b + 1 <= batch_size, dhw * channels_in >= 0;
                    assert(patch_geom(out_h, out_w, kernel_d, kernel_h, kernel_w, stride_d, stride_h, stride_w, dilation_d,
                        dilation_h, dilation_w, pad_d, pad_h, pad_w, in_d, in_h, in_w, channels_per_group, col_len,
                        nhwc_stride.3) == pg);
                }
                im2col_3d_tile(
                    col_tile.as_mut_slice(),
                    x_nhwc.as_slice(),
                    tile_start,
                    tile_end,
                    out_h,
                    out_w,
                    kernel_d,
                    kernel_h,
                    kernel_w,
                    stride_d,
                    stride_h,
                    stride_w,
                    dilation_d,
                    dilation_h,
                    dilation_w,
                    pad_d,
                    pad_h,
                    pad_w,
                    in_d,
                    in_h,
                    in_w,
                    channels_per_group,
                    col_len,
                    b,
                    in_c_start,
                    nhwc_stride,
                );
                proof {
                    assert forall|j: int| 0 <= j < col_tile@.len() implies #[trigger] col_tile@[j] == patch_matrix(
                        xs,
                        zero,
                        pg,
                        b as int,
                        g as int,
                        tile_start as int,
                        tile_size as int,
                    )[j] by {
                        assert(col_len > 0) by (nonlinear_arith)
                            requires j < col_len * tile_size, j >= 0, tile_size >= 0, col_len >= 0;
                        assert(channels_per_group > 0) by (nonlinear_arith)
                            requires col_len == channels_per_group * k_spatial, col_len > 0, channels_per_group >= 0, k_spatial >= 0;
                        let off = j % (col_len as int);
                        vstd::arithmetic::div_mod::lemma_mod_bound(off, channels_per_group as int);
                        vstd::arithmetic::div_mod::lemma_mod_bound(j, col_len as int);
                        match patch_tap(pg, tile_start + j / (col_len as int), off) {
                            Option::Some(t) => {
                                assert(x_nhwc@[ndhwc_offset(b as int, t.0, t.1, t.2, in_c_start + off % (channels_per_group as int), in_d as int, in_h as int, in_w as int, channels_in as int)]
                                    == xs[ncdhw_offset(b as int, in_c_start + off % (channels_per_group as int), t.0, t.1, t.2, channels_in as int, in_d as int, in_h as int, in_w as int)]);
                            },
                            Option::None => {},
                        }
                    }
                    assert(col_tile@ =~= patch_matrix(xs, zero, pg, b as int, g as int, tile_start as int, tile_size as int));
                }
                proof {
                    assert(out_c_start * col_len + out_channels_per_group * col_len <= channels_out * col_len) by (nonlinear_arith)
                        requires out_c_start + out_channels_per_group <= channels_out, col_len >= 0;
                    lemma_mul_nonneg(out_c_start as int, col_len as int);
                    lemma_mul_nonneg(out_channels_per_group as int, col_len as int);
                }
                let w_start = out_c_start * col_len;
                let w_end = w_start + out_channels_per_group * col_len;
                let w_group = slice_subrange(w_flat.as_slice(), w_start, w_end);
                proof {
                    assert(pg.channels_per_group == channels_per_group);
                    assert(pg.kernel_d * pg.kernel_h * pg.kernel_w == k_spatial);
                    assert(w_group@ =~= kernel_matrix(ws, pg, out_channels_per_group as int, g as int));
                }
                let col_slice = col_tile.as_slice();
                let result = gemm_fn(w_group, col_slice, out_channels_per_group, col_len, tile_size);
                let ghost before = output@;
                proof {
                    assert((b + 1) * channels_out * spatial_out <= total) by (nonlinear_arith)
                        requires b + 1 <= batch_size, total == batch_size * channels_out * spatial_out, channels_out * spatial_out >= 0;
                }
                scatter_block(&mut output, &result, b, channels_out, spatial_out, out_c_start, out_channels_per_group, tile_start, tile_size);
                proof {
                    assert forall|i: int|
                        0 <= i < total && gemm_done(i, channels_out as int, spatial_out as int, out_channels_per_group as int, b as int, tile_idx as int, g + 1)
                            implies #[trigger] gemm_elem(gemm, zero, xs, ws, pg, channels_out as int, out_channels_per_group as int, spatial_out as int, i, output@[i]) by {
                        assert(channels_out > 0) by (nonlinear_arith)
                            requires 0 <= i < total, total == batch_size * channels_out * spatial_out, batch_size >= 0, spatial_out >= 0, channels_out >= 0;
                        assert(out_channels_per_group > 0) by (nonlinear_arith)
                            requires channels_out > 0, channels_out == groups * out_channels_per_group, groups >= 1;
                        lemma_block_cell(i, channels_out as int, spatial_out as int, out_channels_per_group as int, b as int, tile_idx as int, g as int);
                        if in_block(i, channels_out as int, spatial_out as int, b as int, out_c_start as int, out_channels_per_group as int, tile_start as int, tile_size as int) {
                            let q = i / spatial_out as int;
                            let si = i % spatial_out as int;
                            lemma_div_band(si, TILE_SIZE as int, tile_idx as int);
                            assert((si / (TILE_SIZE as int)) * (TILE_SIZE as int) == tile_start);
                            assert(call_ensures(gemm, (w_group, col_slice, out_channels_per_group, col_len, tile_size), result));
                        } else {
                            assert(gemm_done(i, channels_out as int, spatial_out as int, out_channels_per_group as int, b as int, tile_idx as int, g as int));
                            assert(output@[i] == before[i]);
                        }
                    }
                }
                g += 1;
            }
            proof {
                assert forall|i: int|
                    0 <= i < total && gemm_done(i, channels_out as int, spatial_out as int, out_channels_per_group as int, b as int, tile_idx + 1, 0)
                        implies #[trigger] gemm_elem(gemm, zero, xs, ws, pg, channels_out as int, out_channels_per_group as int, spatial_out as int, i, output@[i]) by {
                    let q = i / spatial_out as int;
                    assert(channels_out > 0) by (nonlinear_arith)
                        requires 0 <= i < total, total == batch_size * channels_out * spatial_out, batch_size >= 0, spatial_out >= 0, channels_out >= 0;
                    assert(out_channels_per_group > 0) by (nonlinear_arith)
                        requires channels_out > 0, channels_out == groups * out_channels_per_group, groups >= 1;
                    vstd::arithmetic::div_mod::lemma_mod_bound(i, spatial_out as int);
                    vstd::arithmetic::div_mod::lemma_mod_bound(q, channels_out as int);
                    assert(q >= 0) by (nonlinear_arith)
                        requires i >= 0, spatial_out > 0, q == i / spatial_out as int;
                    lemma_cells_covered(q % channels_out as int, out_channels_per_group as int, groups as int, i % spatial_out as int, spatial_out as int, num_tiles as int);
                    assert(gemm_done(i, channels_out as int, spatial_out as int, out_channels_per_group as int, b as int, tile_idx as int, groups as int));
                }
            }
            tile_idx += 1;
        }
        proof {
            assert forall|i: int|
                0 <= i < total && gemm_done(i, channels_out as int, spatial_out as int, out_channels_per_group as int, b + 1, 0, 0)
                    implies #[trigger] gemm_elem(gemm, zero, xs, ws, pg, channels_out as int, out_channels_per_group as int, spatial_out as int, i, output@[i]) by {
                let q = i / spatial_out as int;
                assert(channels_out > 0) by (nonlinear_arith)
                    requires 0 <= i < total, total == batch_size * channels_out * spatial_out, batch_size >= 0, spatial_out >= 0, channels_out >= 0;
                assert(out_channels_per_group > 0) by (nonlinear_arith)
                    requires channels_out > 0, channels_out == groups * out_channels_per_group, groups >= 1;
                vstd::arithmetic::div_mod::lemma_mod_bound(i, spatial_out as int);
                vstd::arithmetic::div_mod::lemma_mod_bound(q, channels_out as int);
                assert(q >= 0) by (nonlinear_arith)
                    requires i >= 0, spatial_out > 0, q == i / spatial_out as int;
                lemma_cells_covered(q % channels_out as int, out_channels_per_group as int, groups as int, i % spatial_out as int, spatial_out as int, num_tiles as int);
                assert(gemm_done(i, channels_out as int, spatial_out as int, out_channels_per_group as int, b as int, num_tiles as int, 0));
            }
        }
        b += 1;
    }
    proof {
        assert forall|i: int| 0 <= i < total implies #[trigger] gemm_elem(gemm, zero, xs, ws, pg, channels_out as int, out_channels_per_group as int, spatial_out as int, i, output@[i]) by {
            assert(channels_out > 0) by (nonlinear_arith)
                requires 0 <= i < total, total == batch_size * channels_out * spatial_out, batch_size >= 0, spatial_out >= 0, channels_out >= 0;
            assert(out_channels_per_group > 0) by (nonlinear_arith)
                requires channels_out > 0, channels_out == groups * out_channels_per_group, groups >= 1;
            lemma_div_lt(i, batch_size * channels_out, spatial_out as int);
            lemma_div_lt(i / spatial_out as int, batch_size as int, channels_out as int);
            assert(batch_size * channels_out * spatial_out == (batch_size * channels_out) * spatial_out);
            assert(gemm_done(i, channels_out as int, spatial_out as int, out_channels_per_group as int, batch_size as int, 0, 0));
        }
    }
    let ghost acc = output@;
    match bias {
        Option::Some(bv) => {
            add_bias(&mut output, bv.data.as_slice(), batch_size, channels_out, spatial_out, add_fn);
        },
        Option::None => {},
    }
    proof {
        assert forall|i: int| 0 <= i < output@.len() implies #[trigger] gemm_out_elem(
            gemm,
            *add_fn,
            zero,
            xs,
            ws,
            bias_data(bias),
            pg,
            channels_out as int,
            out_channels_per_group as int,
            spatial_out as int,
            i,
            output@[i],
        ) by {
            assert(gemm_elem(gemm, zero, xs, ws, pg, channels_out as int, out_channels_per_group as int, spatial_out as int, i, acc[i]));
        }
    }
    let shape = vec![batch_size, channels_out, out_d, out_h, out_w];
    let r = HostTensor::new(output, shape, dtype);
    proof {
        lemma_numel_5(r.shape@);
        assert(r.data@.len() == batch_size * channels_out * out_d * out_h * out_w) by (nonlinear_arith)
            requires r.data@.len() == batch_size * channels_out * (out_d * out_h * out_w);
    }
    r
}

} // verus!
