//! Accumulation of one two-dimensional convolution plane into an output
//! plane, in two loop orders with the same result.
use vstd::prelude::*;
use crate::fold::{mac_step, macs_to, mac_deterministic, lemma_macs_to_push, lemma_macs_to_skip, lemma_macs_to_unique};
use crate::arith::{lemma_offset2, lemma_div_lt, lemma_div_mod_offset, lemma_mul_nonneg};
use super::{out_range, tap_inside, lemma_valid_out_range_exact};

verus! {

/// The geometry of one convolution plane: kernel, input and output extents,
/// and stride, padding and dilation along the two axes.
#[derive(Clone, Copy)]
pub struct PlaneGeom {
    pub kernel_h: usize,
    pub kernel_w: usize,
    pub in_h: usize,
    pub in_w: usize,
    pub out_h: usize,
    pub out_w: usize,
    pub stride_h: usize,
    pub stride_w: usize,
    pub pad_h: usize,
    pub pad_w: usize,
    pub dilation_h: usize,
    pub dilation_w: usize,
}

/// Rows of a plane of `len` elements and row length `w`.
pub open spec fn rows(len: int, w: int) -> int {
    if w > 0 { len / w } else { 0 }
}

/// The geometry of the planes handed to `conv_plane_accumulate`: the row
/// counts follow from the plane lengths and row lengths.
pub open spec fn plane_geom(
    out_len: int,
    in_len: int,
    kernel_h: usize,
    kernel_w: usize,
    in_w: usize,
    out_w: usize,
    stride_h: usize,
    stride_w: usize,
    pad_h: usize,
    pad_w: usize,
    dilation_h: usize,
    dilation_w: usize,
) -> PlaneGeom {
    PlaneGeom {
        kernel_h,
        kernel_w,
        in_h: rows(in_len, in_w as int) as usize,
        in_w,
        out_h: rows(out_len, out_w as int) as usize,
        out_w,
        stride_h,
        stride_w,
        pad_h,
        pad_w,
        dilation_h,
        dilation_w,
    }
}

/// Kernel tap `q` (row-major over `kernel_h x kernel_w`) of output element
/// `(oh, ow)`: the weight and the input element it multiplies, or `None`
/// when the tap reads padding.
pub open spec fn plane_tap<T>(x: Seq<T>, w: Seq<T>, g: PlaneGeom, oh: int, ow: int, q: int) -> Option<(T, T)> {
    let kh = q / (g.kernel_w as int);
    let kw = q % (g.kernel_w as int);
    if tap_inside(oh, kh, g.dilation_h as int, g.pad_h as int, g.stride_h as int, g.in_h as int)
        && tap_inside(ow, kw, g.dilation_w as int, g.pad_w as int, g.stride_w as int, g.in_w as int) {
        let ih = oh * g.stride_h + kh * g.dilation_h - g.pad_h;
        let iw = ow * g.stride_w + kw * g.dilation_w - g.pad_w;
        Option::Some((w[q], x[ih * g.in_w + iw]))
    } else {
        Option::None
    }
}

/// The multiply-accumulate steps of output element `p` (row-major), in
/// kernel order.
pub open spec fn out_steps<T>(x: Seq<T>, w: Seq<T>, g: PlaneGeom, p: int) -> Seq<Option<(T, T)>> {
    Seq::new(
        (g.kernel_h * g.kernel_w) as nat,
        |q: int| plane_tap(x, w, g, p / (g.out_w as int), p % (g.out_w as int), q),
    )
}

/// `after` is what accumulating the convolution of input plane `x` with
/// kernel `w` into `before` can yield: every output element takes, in kernel
/// order, one multiply-accumulate step per kernel tap that reads inside the
/// input.
pub open spec fn plane_accumulated<T, M: Fn(T, T, T) -> T>(
    mac: M,
    g: PlaneGeom,
    x: Seq<T>,
    w: Seq<T>,
    before: Seq<T>,
    after: Seq<T>,
) -> bool {
    &&& after.len() == before.len()
    &&& forall|p: int| 0 <= p < before.len() ==> #[trigger] macs_to(mac, before[p], out_steps(x, w, g, p), after[p])
}

/// Element `p` has taken the first `n` steps of its accumulation.
pub open spec fn elem_acc<T, M: Fn(T, T, T) -> T>(
    mac: M,
    g: PlaneGeom,
    x: Seq<T>,
    w: Seq<T>,
    before: Seq<T>,
    cur: Seq<T>,
    p: int,
    n: int,
) -> bool {
    macs_to(mac, before[p], out_steps(x, w, g, p).take(n), cur[p])
}

/// The arguments `conv_plane_accumulate` works on: planes whose lengths are
/// whole rows, positive strides, a kernel that fits the weight plane, and
/// per-tap output ranges as `valid_out_range` computes them.
pub open spec fn plane_ok(
    g: PlaneGeom,
    out_len: int,
    in_len: int,
    w_len: int,
    oh_ranges: Seq<(usize, usize)>,
    ow_ranges: Seq<(usize, usize)>,
) -> bool {
    &&& (g.in_w > 0 ==> in_len % (g.in_w as int) == 0)
    &&& (g.in_w == 0 ==> in_len == 0)
    &&& (g.out_w > 0 ==> out_len % (g.out_w as int) == 0)
    &&& (g.out_w == 0 ==> out_len == 0)
    &&& g.stride_h >= 1
    &&& g.stride_w >= 1
    &&& g.kernel_h * g.kernel_w <= w_len
    &&& g.in_h + g.pad_h <= usize::MAX
    &&& g.in_w + g.pad_w <= usize::MAX
    &&& (g.kernel_h == 0 || (g.kernel_h - 1) * g.dilation_h <= usize::MAX)
    &&& (g.kernel_w == 0 || (g.kernel_w - 1) * g.dilation_w <= usize::MAX)
    &&& oh_ranges.len() >= g.kernel_h
    &&& ow_ranges.len() >= g.kernel_w
    &&& forall|kh: int|
        0 <= kh < g.kernel_h && g.in_w > 0 ==> (#[trigger] oh_ranges[kh].0 as int, oh_ranges[kh].1 as int) == out_range(
            kh,
            g.dilation_h as int,
            g.pad_h as int,
            g.stride_h as int,
            g.in_h as int,
            g.out_h as int,
        )
    &&& forall|kw: int|
        0 <= kw < g.kernel_w ==> (#[trigger] ow_ranges[kw].0 as int, ow_ranges[kw].1 as int) == out_range(
            kw,
            g.dilation_w as int,
            g.pad_w as int,
            g.stride_w as int,
            g.in_w as int,
            g.out_w as int,
        )
}

/// Tap `q = kh * kernel_w + kw` of element `(oh, ow)` reads inside the input
/// exactly when `oh` lies in row range `kh` and `ow` in column range `kw`.
proof fn lemma_tap_in_ranges<T>(
    x: Seq<T>,
    w: Seq<T>,
    g: PlaneGeom,
    oh_ranges: Seq<(usize, usize)>,
    ow_ranges: Seq<(usize, usize)>,
    kh: int,
    kw: int,
    oh: int,
    ow: int,
)
    requires
        plane_ok(g, (g.out_h * g.out_w) as int, (g.in_h * g.in_w) as int, w.len() as int, oh_ranges, ow_ranges),
        0 <= kh < g.kernel_h,
        0 <= kw < g.kernel_w,
        0 <= oh < g.out_h,
        0 <= ow < g.out_w,
    ensures
        plane_tap(x, w, g, oh, ow, kh * g.kernel_w + kw) is Some <==> (oh_ranges[kh].0 <= oh < oh_ranges[kh].1
            && ow_ranges[kw].0 <= ow < ow_ranges[kw].1),
{
    lemma_div_mod_offset(kh, kw, g.kernel_w as int);
    assert((ow_ranges[kw].0 as int, ow_ranges[kw].1 as int) == out_range(kw, g.dilation_w as int, g.pad_w as int, g.stride_w as int, g.in_w as int, g.out_w as int));
    if g.in_w == 0 {
        return;
    }
    lemma_valid_out_range_exact(kh, g.dilation_h as int, g.pad_h as int, g.stride_h as int, g.in_h as int, g.out_h as int, oh);
    lemma_valid_out_range_exact(kw, g.dilation_w as int, g.pad_w as int, g.stride_w as int, g.in_w as int, g.out_w as int, ow);
    assert((oh_ranges[kh].0 as int, oh_ranges[kh].1 as int) == out_range(kh, g.dilation_h as int, g.pad_h as int, g.stride_h as int, g.in_h as int, g.out_h as int));
    assert((ow_ranges[kw].0 as int, ow_ranges[kw].1 as int) == out_range(kw, g.dilation_w as int, g.pad_w as int, g.stride_w as int, g.in_w as int, g.out_w as int));
}

/// Output element `p` lies in the rectangle `[s_h, e_h) x [s_w, e_w)` of a
/// row-major plane with rows of `out_w`, and before position `(oh, ow)` in
/// row-major order.
pub open spec fn rect_done(p: int, out_w: int, s_h: int, s_w: int, e_w: int, oh: int, ow: int) -> bool {
    let a = p / out_w;
    let b = p % out_w;
    &&& s_w <= b < e_w
    &&& (s_h <= a < oh || (a == oh && b < ow))
}

/// Element `p` takes tap `q`, which reads input element `xv` with weight `wq`.
proof fn lemma_elem_step<T, M: Fn(T, T, T) -> T>(
    mac: M,
    g: PlaneGeom,
    x: Seq<T>,
    w: Seq<T>,
    init: Seq<T>,
    cur: Seq<T>,
    p: int,
    q: int,
    wq: T,
    xv: T,
    v: T,
)
    requires
        0 <= p < cur.len(),
        0 <= q < g.kernel_h * g.kernel_w,
        elem_acc(mac, g, x, w, init, cur, p, q),
        out_steps(x, w, g, p)[q] == Option::Some((wq, xv)),
        call_ensures(mac, (cur[p], wq, xv), v),
    ensures
        elem_acc(mac, g, x, w, init, cur.update(p, v), p, q + 1),
{
    let s = out_steps(x, w, g, p);
    assert(s.take(q).push(s[q]) =~= s.take(q + 1));
    assert(mac_step(mac, cur[p], s[q], v));
    lemma_macs_to_push(mac, init[p], s.take(q), cur[p], s[q], v);
}

/// Element `p` skips tap `q`, which reads padding.
proof fn lemma_elem_skip<T, M: Fn(T, T, T) -> T>(
    mac: M,
    g: PlaneGeom,
    x: Seq<T>,
    w: Seq<T>,
    init: Seq<T>,
    cur: Seq<T>,
    p: int,
    q: int,
)
    requires
        0 <= q < g.kernel_h * g.kernel_w,
        elem_acc(mac, g, x, w, init, cur, p, q),
        out_steps(x, w, g, p)[q] is None,
    ensures
        elem_acc(mac, g, x, w, init, cur, p, q + 1),
{
    let s = out_steps(x, w, g, p);
    assert(s.take(q).push(s[q]) =~= s.take(q + 1));
    lemma_macs_to_push(mac, init[p], s.take(q), cur[p], s[q], cur[p]);
}

/// Having taken every tap is being accumulated.
proof fn lemma_elem_all<T, M: Fn(T, T, T) -> T>(
    mac: M,
    g: PlaneGeom,
    x: Seq<T>,
    w: Seq<T>,
    init: Seq<T>,
    cur: Seq<T>,
)
    requires
        cur.len() == init.len(),
        forall|p: int| 0 <= p < init.len() ==> #[trigger] elem_acc(mac, g, x, w, init, cur, p, g.kernel_h * g.kernel_w),
    ensures
        plane_accumulated(mac, g, x, w, init, cur),
{
    assert forall|p: int| 0 <= p < init.len() implies #[trigger] macs_to(mac, init[p], out_steps(x, w, g, p), cur[p]) by {
        assert(elem_acc(mac, g, x, w, init, cur, p, g.kernel_h * g.kernel_w));
        let s = out_steps(x, w, g, p);
        assert(s.take(g.kernel_h * g.kernel_w) =~= s);
    }
}

/// Facts about one kernel tap and one output element inside its ranges: the
/// input coordinates do not overflow, the offsets lie inside the planes, and
/// the tap reads `x[ih * in_w + iw]` with weight `w[q]`.
proof fn lemma_tap_read<T>(
    x: Seq<T>,
    w: Seq<T>,
    g: PlaneGeom,
    oh_ranges: Seq<(usize, usize)>,
    ow_ranges: Seq<(usize, usize)>,
    kh: int,
    kw: int,
    oh: int,
    ow: int,
)
    requires
        plane_ok(g, (g.out_h * g.out_w) as int, (g.in_h * g.in_w) as int, w.len() as int, oh_ranges, ow_ranges),
        x.len() == g.in_h * g.in_w,
        0 <= kh < g.kernel_h,
        0 <= kw < g.kernel_w,
        oh_ranges[kh].0 <= oh < oh_ranges[kh].1,
        ow_ranges[kw].0 <= ow < ow_ranges[kw].1,
    ensures
        ({
            let ih = oh * g.stride_h + kh * g.dilation_h - g.pad_h;
            let iw = ow * g.stride_w + kw * g.dilation_w - g.pad_w;
            let q = kh * g.kernel_w + kw;
            let p = oh * g.out_w + ow;
            &&& 0 <= oh < g.out_h
            &&& 0 <= ow < g.out_w
            &&& 0 <= kh * g.dilation_h <= usize::MAX
            &&& 0 <= kw * g.dilation_w <= usize::MAX
            &&& 0 <= oh * g.stride_h <= usize::MAX
            &&& 0 <= ow * g.stride_w <= usize::MAX
            &&& oh * g.stride_h + kh * g.dilation_h <= usize::MAX
            &&& ow * g.stride_w + kw * g.dilation_w <= usize::MAX
            &&& 0 <= ih < g.in_h
            &&& 0 <= iw < g.in_w
            &&& 0 <= ih * g.in_w + iw < x.len()
            &&& 0 <= q < g.kernel_h * g.kernel_w
            &&& 0 <= p < g.out_h * g.out_w
            &&& p / (g.out_w as int) == oh
            &&& p % (g.out_w as int) == ow
            &&& plane_tap(x, w, g, oh, ow, q) == Option::Some((w[q], x[ih * g.in_w + iw]))
        }),
{
    assert((ow_ranges[kw].0 as int, ow_ranges[kw].1 as int) == out_range(kw, g.dilation_w as int, g.pad_w as int, g.stride_w as int, g.in_w as int, g.out_w as int));
    assert(g.in_w > 0);
    assert((oh_ranges[kh].0 as int, oh_ranges[kh].1 as int) == out_range(kh, g.dilation_h as int, g.pad_h as int, g.stride_h as int, g.in_h as int, g.out_h as int));
    lemma_valid_out_range_exact(kh, g.dilation_h as int, g.pad_h as int, g.stride_h as int, g.in_h as int, g.out_h as int, oh);
    lemma_valid_out_range_exact(kw, g.dilation_w as int, g.pad_w as int, g.stride_w as int, g.in_w as int, g.out_w as int, ow);
    lemma_mul_nonneg(kh, g.dilation_h as int);
    lemma_mul_nonneg(kw, g.dilation_w as int);
    lemma_mul_nonneg(oh, g.stride_h as int);
    lemma_mul_nonneg(ow, g.stride_w as int);
    assert(kh * g.dilation_h <= (g.kernel_h - 1) * g.dilation_h) by (nonlinear_arith)
        requires kh <= g.kernel_h - 1, g.dilation_h >= 0;
    assert(kw * g.dilation_w <= (g.kernel_w - 1) * g.dilation_w) by (nonlinear_arith)
        requires kw <= g.kernel_w - 1, g.dilation_w >= 0;
    let ih = oh * g.stride_h + kh * g.dilation_h - g.pad_h;
    let iw = ow * g.stride_w + kw * g.dilation_w - g.pad_w;
    lemma_offset2(ih, iw, g.in_h as int, g.in_w as int);
    lemma_offset2(kh, kw, g.kernel_h as int, g.kernel_w as int);
    lemma_offset2(oh, ow, g.out_h as int, g.out_w as int);
    lemma_div_mod_offset(oh, ow, g.out_w as int);
    lemma_div_mod_offset(kh, kw, g.kernel_w as int);
}

/// Whole-row plane lengths are their row counts times their row lengths.
proof fn lemma_plane_lengths(out_len: int, in_len: int, in_w: int, out_w: int)
    requires
        out_len >= 0,
        in_len >= 0,
        in_w >= 0,
        in_w > 0 ==> in_len % in_w == 0,
        in_w == 0 ==> in_len == 0,
        out_w > 0 ==> out_len % out_w == 0,
        out_w == 0 ==> out_len == 0,
        out_w >= 0,
    ensures
        in_len == rows(in_len, in_w) * in_w,
        out_len == rows(out_len, out_w) * out_w,
        0 <= rows(in_len, in_w) <= in_len,
        0 <= rows(out_len, out_w) <= out_len,
{
    if in_w > 0 {
        vstd::arithmetic::div_mod::lemma_fundamental_div_mod(in_len, in_w);
        assert(in_w * (in_len / in_w) == (in_len / in_w) * in_w) by (nonlinear_arith);
        assert(0 <= in_len / in_w <= in_len) by (nonlinear_arith)
            requires in_w > 0, in_len >= 0;
    }
    if out_w > 0 {
        vstd::arithmetic::div_mod::lemma_fundamental_div_mod(out_len, out_w);
        assert(out_w * (out_len / out_w) == (out_len / out_w) * out_w) by (nonlinear_arith);
        assert(0 <= out_len / out_w <= out_len) by (nonlinear_arith)
            requires out_w > 0, out_len >= 0;
    }
}

/// `kh, kw`-outermost variant. Amortizes per-kernel-position setup over
/// long regular `oh` runs.
pub fn conv_plane_accumulate_kh_outer<T: Copy, M: Fn(T, T, T) -> T>(
    out_plane: &mut [T],
    in_plane: &[T],
    w_plane: &[T],
    kernel_h: usize,
    kernel_w: usize,
    in_w: usize,
    out_w: usize,
    stride_h: usize,
    stride_w: usize,
    pad_h: usize,
    pad_w: usize,
    dilation_h: usize,
    dilation_w: usize,
    oh_ranges: &[(usize, usize)],
    ow_ranges: &[(usize, usize)],
    mac: &M,
)
    requires
        plane_ok(
            plane_geom(old(out_plane)@.len() as int, in_plane@.len() as int, kernel_h, kernel_w, in_w, out_w,
                stride_h, stride_w, pad_h, pad_w, dilation_h, dilation_w),
            old(out_plane)@.len() as int,
            in_plane@.len() as int,
            w_plane@.len() as int,
            oh_ranges@,
            ow_ranges@,
        ),
        forall|a: T, b: T, c: T| call_requires(*mac, (a, b, c)),
    ensures
        plane_accumulated(
            *mac,
            plane_geom(old(out_plane)@.len() as int, in_plane@.len() as int, kernel_h, kernel_w, in_w, out_w,
                stride_h, stride_w, pad_h, pad_w, dilation_h, dilation_w),
            in_plane@,
            w_plane@,
            old(out_plane)@,
            final(out_plane)@,
        ),
{
    let ghost g = plane_geom(out_plane@.len() as int, in_plane@.len() as int, kernel_h, kernel_w, in_w, out_w,
        stride_h, stride_w, pad_h, pad_w, dilation_h, dilation_w);
    let ghost init = out_plane@;
    let ghost x = in_plane@;
    let ghost w = w_plane@;
    let out_len = out_plane.len();
    let in_len = in_plane.len();
    let w_len = w_plane.len();
    proof {
        lemma_plane_lengths(init.len() as int, x.len() as int, in_w as int, out_w as int);
        assert forall|p: int| 0 <= p < init.len() implies #[trigger] elem_acc(*mac, g, x, w, init, init, p, 0) by {
            crate::fold::lemma_macs_to_empty(*mac, init[p]);
            assert(out_steps(x, w, g, p).take(0) =~= Seq::<Option<(T, T)>>::empty());
        }
    }
    let mut kh: usize = 0;
    let ghost mut q: int = 0;
    while kh < kernel_h
        invariant
            kh <= kernel_h,
            q == kh * kernel_w,
            g == plane_geom(init.len() as int, x.len() as int, kernel_h, kernel_w, in_w, out_w, stride_h, stride_w,
                pad_h, pad_w, dilation_h, dilation_w),
            plane_ok(g, init.len() as int, x.len() as int, w.len() as int, oh_ranges@, ow_ranges@),
            x.len() == g.in_h * g.in_w,
            init.len() == g.out_h * g.out_w,
            x == in_plane@,
            w == w_plane@,
            w.len() == w_len,
            x.len() == in_len,
            init.len() == out_len,
            out_plane@.len() == init.len(),
            forall|a: T, b: T, c: T| call_requires(*mac, (a, b, c)),
            forall|p: int| 0 <= p < init.len() ==> #[trigger] elem_acc(*mac, g, x, w, init, out_plane@, p, q),
        decreases kernel_h - kh,
    {
        let (oh_start, oh_end) = oh_ranges[kh];
        let mut kw: usize = 0;
        assert(kh * kernel_w + kernel_w == (kh + 1) * kernel_w) by (nonlinear_arith);
        while kw < kernel_w
            invariant
                kh < kernel_h,
                kw <= kernel_w,
                q == kh * kernel_w + kw,
                (oh_start, oh_end) == oh_ranges@[kh as int],
                g == plane_geom(init.len() as int, x.len() as int, kernel_h, kernel_w, in_w, out_w, stride_h,
                    stride_w, pad_h, pad_w, dilation_h, dilation_w),
                plane_ok(g, init.len() as int, x.len() as int, w.len() as int, oh_ranges@, ow_ranges@),
                x.len() == g.in_h * g.in_w,
                init.len() == g.out_h * g.out_w,
                x == in_plane@,
                w == w_plane@,
                w.len() == w_len,
                x.len() == in_len,
                init.len() == out_len,
                out_plane@.len() == init.len(),
                forall|a: T, b: T, c: T| call_requires(*mac, (a, b, c)),
                forall|p: int| 0 <= p < init.len() ==> #[trigger] elem_acc(*mac, g, x, w, init, out_plane@, p, q),
            decreases kernel_w - kw,
        {
            let (ow_start, ow_end) = ow_ranges[kw];
            let ghost q1 = q + 1;
            proof {
                lemma_offset2(kh as int, kw as int, kernel_h as int, kernel_w as int);
            }
            if oh_start < oh_end && ow_start < ow_end {
                let w_val = w_plane[kh * kernel_w + kw];
                let mut oh = oh_start;
                while oh < oh_end
                    invariant
                        kh < kernel_h,
                        kw < kernel_w,
                        q == kh * kernel_w + kw,
                        q1 == q + 1,
                        0 <= q < kernel_h * kernel_w,
                        w_val == w[q],
                        (oh_start, oh_end) == oh_ranges@[kh as int],
                        (ow_start, ow_end) == ow_ranges@[kw as int],
                        oh_start <= oh <= oh_end,
                        ow_start < ow_end,
                        g == plane_geom(init.len() as int, x.len() as int, kernel_h, kernel_w, in_w, out_w,
                            stride_h, stride_w, pad_h, pad_w, dilation_h, dilation_w),
                        plane_ok(g, init.len() as int, x.len() as int, w.len() as int, oh_ranges@, ow_ranges@),
                        x.len() == g.in_h * g.in_w,
                        init.len() == g.out_h * g.out_w,
                        x == in_plane@,
                        w == w_plane@,
                        w.len() == w_len,
                        x.len() == in_len,
                        init.len() == out_len,
                        out_plane@.len() == init.len(),
                        forall|a: T, b: T, c: T| call_requires(*mac, (a, b, c)),
                        forall|p: int|
                            0 <= p < init.len() && rect_done(p, out_w as int, oh_start as int, ow_start as int, ow_end as int, oh as int, ow_start as int)
                                ==> #[trigger] elem_acc(*mac, g, x, w, init, out_plane@, p, q1),
                        forall|p: int|
                            0 <= p < init.len() && !rect_done(p, out_w as int, oh_start as int, ow_start as int, ow_end as int, oh as int, ow_start as int)
                                ==> #[trigger] elem_acc(*mac, g, x, w, init, out_plane@, p, q),
                    decreases oh_end - oh,
                {
                    proof {
                        lemma_tap_read(x, w, g, oh_ranges@, ow_ranges@, kh as int, kw as int, oh as int, ow_start as int);
                    }
                    let ih = oh * stride_h + kh * dilation_h - pad_h;
                    let mut ow = ow_start;
                    while ow < ow_end
                        invariant
                            kh < kernel_h,
                            kw < kernel_w,
                            q == kh * kernel_w + kw,
                            q1 == q + 1,
                            0 <= q < kernel_h * kernel_w,
                            w_val == w[q],
                            (oh_start, oh_end) == oh_ranges@[kh as int],
                            (ow_start, ow_end) == ow_ranges@[kw as int],
                            oh_start <= oh < oh_end,
                            ow_start <= ow <= ow_end,
                            ih == oh * stride_h + kh * dilation_h - pad_h,
                            g == plane_geom(init.len() as int, x.len() as int, kernel_h, kernel_w, in_w, out_w,
                                stride_h, stride_w, pad_h, pad_w, dilation_h, dilation_w),
                            plane_ok(g, init.len() as int, x.len() as int, w.len() as int, oh_ranges@, ow_ranges@),
                            x.len() == g.in_h * g.in_w,
                            init.len() == g.out_h * g.out_w,
                            x == in_plane@,
                            w == w_plane@,
                            w.len() == w_len,
                            x.len() == in_len,
                            init.len() == out_len,
                            out_plane@.len() == init.len(),
                            forall|a: T, b: T, c: T| call_requires(*mac, (a, b, c)),
                            forall|p: int|
                                0 <= p < init.len() && rect_done(p, out_w as int, oh_start as int, ow_start as int, ow_end as int, oh as int, ow as int)
                                    ==> #[trigger] elem_acc(*mac, g, x, w, init, out_plane@, p, q1),
                            forall|p: int|
                                0 <= p < init.len() && !rect_done(p, out_w as int, oh_start as int, ow_start as int, ow_end as int, oh as int, ow as int)
                                    ==> #[trigger] elem_acc(*mac, g, x, w, init, out_plane@, p, q),
                        decreases ow_end - ow,
                    {
                        proof {
                            lemma_tap_read(x, w, g, oh_ranges@, ow_ranges@, kh as int, kw as int, oh as int, ow as int);
                        }
                        let iw = ow * stride_w + kw * dilation_w - pad_w;
                        let p = oh * out_w + ow;
                        let idx = ih * in_w + iw;
                        let ghost before = out_plane@;
                        let v = mac(out_plane[p], w_val, in_plane[idx]);
                        out_plane[p] = v;
                        proof {
                            assert(!rect_done(p as int, out_w as int, oh_start as int, ow_start as int, ow_end as int, oh as int, ow as int));
                            assert(elem_acc(*mac, g, x, w, init, before, p as int, q));
                            lemma_elem_step(*mac, g, x, w, init, before, p as int, q, w[q], x[idx as int], v);
                            assert(out_plane@ == before.update(p as int, v));
                            assert forall|p2: int|
                                0 <= p2 < init.len() && rect_done(p2, out_w as int, oh_start as int, ow_start as int, ow_end as int, oh as int, ow + 1)
                                    implies #[trigger] elem_acc(*mac, g, x, w, init, out_plane@, p2, q1) by {
                                if p2 != p {
                                    lemma_div_lt(p2, g.out_h as int, out_w as int);
                                    assert(rect_done(p2, out_w as int, oh_start as int, ow_start as int, ow_end as int, oh as int, ow as int));
                                    assert(elem_acc(*mac, g, x, w, init, before, p2, q1));
                                }
                            }
                            assert forall|p2: int|
                                0 <= p2 < init.len() && !rect_done(p2, out_w as int, oh_start as int, ow_start as int, ow_end as int, oh as int, ow + 1)
                                    implies #[trigger] elem_acc(*mac, g, x, w, init, out_plane@, p2, q) by {
                                assert(p2 != p);
                                assert(!rect_done(p2, out_w as int, oh_start as int, ow_start as int, ow_end as int, oh as int, ow as int));
                                assert(elem_acc(*mac, g, x, w, init, before, p2, q));
                            }
                        }
                        ow += 1;
                    }
                    proof {
                        assert forall|p2: int| 0 <= p2 < init.len() implies
                            rect_done(p2, out_w as int, oh_start as int, ow_start as int, ow_end as int, oh as int, ow_end as int)
                            == rect_done(p2, out_w as int, oh_start as int, ow_start as int, ow_end as int, oh + 1, ow_start as int) by {
                        }
                    }
                    oh += 1;
                }
                proof {
                    assert forall|p2: int| 0 <= p2 < init.len() && !rect_done(p2, out_w as int, oh_start as int, ow_start as int, ow_end as int, oh_end as int, ow_start as int)
                        implies #[trigger] elem_acc(*mac, g, x, w, init, out_plane@, p2, q1) by {
                        assert(elem_acc(*mac, g, x, w, init, out_plane@, p2, q));
                        let a = p2 / (out_w as int);
                        let b = p2 % (out_w as int);
                        lemma_div_lt(p2, g.out_h as int, out_w as int);
                        lemma_tap_in_ranges(x, w, g, oh_ranges@, ow_ranges@, kh as int, kw as int, a, b);
                        lemma_elem_skip(*mac, g, x, w, init, out_plane@, p2, q);
                    }
                    assert forall|p2: int| 0 <= p2 < init.len() implies #[trigger] elem_acc(*mac, g, x, w, init, out_plane@, p2, q1) by {
                        if rect_done(p2, out_w as int, oh_start as int, ow_start as int, ow_end as int, oh_end as int, ow_start as int) {
                        } else {
                        }
                    }
                }
            } else {
                proof {
                    assert forall|p2: int| 0 <= p2 < init.len() implies #[trigger] elem_acc(*mac, g, x, w, init, out_plane@, p2, q1) by {
                        assert(elem_acc(*mac, g, x, w, init, out_plane@, p2, q));
                        let a = p2 / (out_w as int);
                        let b = p2 % (out_w as int);
                        lemma_div_lt(p2, g.out_h as int, out_w as int);
                        lemma_tap_in_ranges(x, w, g, oh_ranges@, ow_ranges@, kh as int, kw as int, a, b);
                        lemma_elem_skip(*mac, g, x, w, init, out_plane@, p2, q);
                    }
                }
            }
            kw += 1;
            proof {
                q = q1;
            }
        }
        kh += 1;
    }
    proof {
        assert(q == kernel_h * kernel_w);
        lemma_elem_all(*mac, g, x, w, init, out_plane@);
    }
}

/// A whole kernel row `kh` whose row range misses output row `oh` leaves the
/// elements of that row unchanged.
proof fn lemma_row_skip<T, M: Fn(T, T, T) -> T>(
    mac: M,
    g: PlaneGeom,
    x: Seq<T>,
    w: Seq<T>,
    init: Seq<T>,
    cur: Seq<T>,
    oh_ranges: Seq<(usize, usize)>,
    ow_ranges: Seq<(usize, usize)>,
    kh: int,
    p: int,
)
    requires
        plane_ok(g, (g.out_h * g.out_w) as int, (g.in_h * g.in_w) as int, w.len() as int, oh_ranges, ow_ranges),
        0 <= kh < g.kernel_h,
        0 <= p < g.out_h * g.out_w,
        !(oh_ranges[kh].0 <= p / (g.out_w as int) < oh_ranges[kh].1),
        elem_acc(mac, g, x, w, init, cur, p, kh * g.kernel_w),
    ensures
        elem_acc(mac, g, x, w, init, cur, p, kh * g.kernel_w + g.kernel_w),
{
    let oh = p / (g.out_w as int);
    let ow = p % (g.out_w as int);
    lemma_div_lt(p, g.out_h as int, g.out_w as int);
    let s = out_steps(x, w, g, p);
    let q = kh * g.kernel_w;
    assert(q + g.kernel_w <= g.kernel_h * g.kernel_w) by (nonlinear_arith)
        requires kh + 1 <= g.kernel_h, q == kh * g.kernel_w, g.kernel_w >= 0;
    assert(0 <= q) by (nonlinear_arith)
        requires kh >= 0, q == kh * g.kernel_w, g.kernel_w >= 0;
    assert forall|i: int| q <= i < q + g.kernel_w implies (#[trigger] s[i]) is None by {
        let kw = i - q;
        lemma_tap_in_ranges(x, w, g, oh_ranges, ow_ranges, kh, kw, oh, ow);
    }
    lemma_macs_to_skip(mac, init[p], s, q, q + g.kernel_w, cur[p]);
}

/// Output element `p` is in row `oh` of the plane.
pub open spec fn in_row(p: int, out_w: int, oh: int) -> bool {
    p / out_w == oh
}

/// `oh`-outermost variant. Pins one output row while every kernel position
/// that accumulates into it is applied, so each row is touched once.
pub fn conv_plane_accumulate_oh_outer<T: Copy, M: Fn(T, T, T) -> T>(
    out_plane: &mut [T],
    in_plane: &[T],
    w_plane: &[T],
    kernel_h: usize,
    kernel_w: usize,
    in_w: usize,
    out_w: usize,
    stride_h: usize,
    stride_w: usize,
    pad_h: usize,
    pad_w: usize,
    dilation_h: usize,
    dilation_w: usize,
    oh_ranges: &[(usize, usize)],
    ow_ranges: &[(usize, usize)],
    mac: &M,
)
    requires
        plane_ok(
            plane_geom(old(out_plane)@.len() as int, in_plane@.len() as int, kernel_h, kernel_w, in_w, out_w,
                stride_h, stride_w, pad_h, pad_w, dilation_h, dilation_w),
            old(out_plane)@.len() as int,
            in_plane@.len() as int,
            w_plane@.len() as int,
            oh_ranges@,
            ow_ranges@,
        ),
        forall|a: T, b: T, c: T| call_requires(*mac, (a, b, c)),
    ensures
        plane_accumulated(
            *mac,
            plane_geom(old(out_plane)@.len() as int, in_plane@.len() as int, kernel_h, kernel_w, in_w, out_w,
                stride_h, stride_w, pad_h, pad_w, dilation_h, dilation_w),
            in_plane@,
            w_plane@,
            old(out_plane)@,
            final(out_plane)@,
        ),
{
    let ghost g = plane_geom(out_plane@.len() as int, in_plane@.len() as int, kernel_h, kernel_w, in_w, out_w,
        stride_h, stride_w, pad_h, pad_w, dilation_h, dilation_w);
    let ghost init = out_plane@;
    let ghost x = in_plane@;
    let ghost w = w_plane@;
    let out_len = out_plane.len();
    let in_len = in_plane.len();
    let w_len = w_plane.len();
    proof {
        lemma_plane_lengths(init.len() as int, x.len() as int, in_w as int, out_w as int);
    }
    if out_len == 0 || out_w == 0 {
        assert(plane_accumulated(*mac, g, x, w, init, out_plane@));
        return;
    }
    let out_h = out_len / out_w;
    let ghost kall = kernel_h * kernel_w;
    let mut oh: usize = 0;
    while oh < out_h
        invariant
            out_w > 0,
            out_h == g.out_h,
            oh <= out_h,
            kall == kernel_h * kernel_w,
            g == plane_geom(init.len() as int, x.len() as int, kernel_h, kernel_w, in_w, out_w, stride_h, stride_w,
                pad_h, pad_w, dilation_h, dilation_w),
            plane_ok(g, init.len() as int, x.len() as int, w.len() as int, oh_ranges@, ow_ranges@),
            x.len() == g.in_h * g.in_w,
            init.len() == g.out_h * g.out_w,
            x == in_plane@,
            w == w_plane@,
            w.len() == w_len,
            x.len() == in_len,
            init.len() == out_len,
            out_plane@.len() == init.len(),
            forall|a: T, b: T, c: T| call_requires(*mac, (a, b, c)),
            forall|p: int| 0 <= p < init.len() && p / (out_w as int) < oh ==> #[trigger] elem_acc(*mac, g, x, w, init, out_plane@, p, kall),
            forall|p: int| 0 <= p < init.len() && p / (out_w as int) >= oh ==> #[trigger] out_plane@[p] == init[p],
        decreases out_h - oh,
    {
        let mut kh: usize = 0;
        let ghost mut q: int = 0;
        proof {
            assert forall|p: int| 0 <= p < init.len() && in_row(p, out_w as int, oh as int) implies #[trigger] elem_acc(*mac, g, x, w, init, out_plane@, p, q) by {
                crate::fold::lemma_macs_to_empty(*mac, init[p]);
                assert(out_steps(x, w, g, p).take(0) =~= Seq::<Option<(T, T)>>::empty());
            }
        }
        while kh < kernel_h
            invariant
                out_w > 0,
                out_h == g.out_h,
                oh < out_h,
                kh <= kernel_h,
                q == kh * kernel_w,
                kall == kernel_h * kernel_w,
                g == plane_geom(init.len() as int, x.len() as int, kernel_h, kernel_w, in_w, out_w, stride_h, stride_w,
                    pad_h, pad_w, dilation_h, dilation_w),
                plane_ok(g, init.len() as int, x.len() as int, w.len() as int, oh_ranges@, ow_ranges@),
                x.len() == g.in_h * g.in_w,
                init.len() == g.out_h * g.out_w,
                x == in_plane@,
                w == w_plane@,
                w.len() == w_len,
                x.len() == in_len,
                init.len() == out_len,
                out_plane@.len() == init.len(),
                forall|a: T, b: T, c: T| call_requires(*mac, (a, b, c)),
                forall|p: int| 0 <= p < init.len() && p / (out_w as int) < oh ==> #[trigger] elem_acc(*mac, g, x, w, init, out_plane@, p, kall),
                forall|p: int| 0 <= p < init.len() && p / (out_w as int) > oh ==> #[trigger] out_plane@[p] == init[p],
                forall|p: int| 0 <= p < init.len() && in_row(p, out_w as int, oh as int) ==> #[trigger] elem_acc(*mac, g, x, w, init, out_plane@, p, q),
            decreases kernel_h - kh,
        {
            let (oh_start, oh_end) = oh_ranges[kh];
            assert(kh * kernel_w + kernel_w == (kh + 1) * kernel_w) by (nonlinear_arith);
            if oh < oh_start || oh >= oh_end {
                proof {
                    assert forall|p: int| 0 <= p < init.len() && in_row(p, out_w as int, oh as int) implies #[trigger] elem_acc(*mac, g, x, w, init, out_plane@, p, q + kernel_w) by {
                        lemma_row_skip(*mac, g, x, w, init, out_plane@, oh_ranges@, ow_ranges@, kh as int, p);
                    }
                    q = q + kernel_w;
                }
            } else {
                let mut kw: usize = 0;
                while kw < kernel_w
                    invariant
                        out_w > 0,
                        out_h == g.out_h,
                        oh < out_h,
                        kh < kernel_h,
                        kw <= kernel_w,
                        q == kh * kernel_w + kw,
                        kall == kernel_h * kernel_w,
                        (oh_start, oh_end) == oh_ranges@[kh as int],
                        oh_start <= oh < oh_end,
                        g == plane_geom(init.len() as int, x.len() as int, kernel_h, kernel_w, in_w, out_w, stride_h,
                            stride_w, pad_h, pad_w, dilation_h, dilation_w),
                        plane_ok(g, init.len() as int, x.len() as int, w.len() as int, oh_ranges@, ow_ranges@),
                        x.len() == g.in_h * g.in_w,
                        init.len() == g.out_h * g.out_w,
                        x == in_plane@,
                        w == w_plane@,
                        w.len() == w_len,
                        x.len() == in_len,
                        init.len() == out_len,
                        out_plane@.len() == init.len(),
                        forall|a: T, b: T, c: T| call_requires(*mac, (a, b, c)),
                        forall|p: int| 0 <= p < init.len() && p / (out_w as int) < oh ==> #[trigger] elem_acc(*mac, g, x, w, init, out_plane@, p, kall),
                        forall|p: int| 0 <= p < init.len() && p / (out_w as int) > oh ==> #[trigger] out_plane@[p] == init[p],
                        forall|p: int| 0 <= p < init.len() && in_row(p, out_w as int, oh as int) ==> #[trigger] elem_acc(*mac, g, x, w, init, out_plane@, p, q),
                    decreases kernel_w - kw,
                {
                    let (ow_start, ow_end) = ow_ranges[kw];
                    let ghost q1 = q + 1;
                    proof {
                        lemma_offset2(kh as int, kw as int, kernel_h as int, kernel_w as int);
                    }
                    if ow_start < ow_end {
                        proof {
                            lemma_tap_read(x, w, g, oh_ranges@, ow_ranges@, kh as int, kw as int, oh as int, ow_start as int);
                        }
                        let ih = oh * stride_h + kh * dilation_h - pad_h;
                        let w_val = w_plane[kh * kernel_w + kw];
                        let mut ow = ow_start;
                        while ow < ow_end
                            invariant
                                out_w > 0,
                                out_h == g.out_h,
                                oh < out_h,
                                kh < kernel_h,
                                kw < kernel_w,
                                q == kh * kernel_w + kw,
                                q1 == q + 1,
                                0 <= q < kernel_h * kernel_w,
                                kall == kernel_h * kernel_w,
                                w_val == w[q],
                                (oh_start, oh_end) == oh_ranges@[kh as int],
                                (ow_start, ow_end) == ow_ranges@[kw as int],
                                oh_start <= oh < oh_end,
                                ow_start <= ow <= ow_end,
                                ih == oh * stride_h + kh * dilation_h - pad_h,
                                g == plane_geom(init.len() as int, x.len() as int, kernel_h, kernel_w, in_w, out_w,
                                    stride_h, stride_w, pad_h, pad_w, dilation_h, dilation_w),
                                plane_ok(g, init.len() as int, x.len() as int, w.len() as int, oh_ranges@, ow_ranges@),
                                x.len() == g.in_h * g.in_w,
                                init.len() == g.out_h * g.out_w,
                                x == in_plane@,
                                w == w_plane@,
                                w.len() == w_len,
                                x.len() == in_len,
                                init.len() == out_len,
                                out_plane@.len() == init.len(),
                                forall|a: T, b: T, c: T| call_requires(*mac, (a, b, c)),
                                forall|p: int| 0 <= p < init.len() && p / (out_w as int) < oh ==> #[trigger] elem_acc(*mac, g, x, w, init, out_plane@, p, kall),
                                forall|p: int| 0 <= p < init.len() && p / (out_w as int) > oh ==> #[trigger] out_plane@[p] == init[p],
                                forall|p: int|
                                    0 <= p < init.len() && in_row(p, out_w as int, oh as int) && ow_start <= p % (out_w as int) < ow
                                        ==> #[trigger] elem_acc(*mac, g, x, w, init, out_plane@, p, q1),
                                forall|p: int|
                                    0 <= p < init.len() && in_row(p, out_w as int, oh as int) && !(ow_start <= p % (out_w as int) < ow)
                                        ==> #[trigger] elem_acc(*mac, g, x, w, init, out_plane@, p, q),
                            decreases ow_end - ow,
                        {
                            proof {
                                lemma_tap_read(x, w, g, oh_ranges@, ow_ranges@, kh as int, kw as int, oh as int, ow as int);
                            }
                            let iw = ow * stride_w + kw * dilation_w - pad_w;
                            let p = oh * out_w + ow;
                            let idx = ih * in_w + iw;
                            let ghost before = out_plane@;
                            let v = mac(out_plane[p], w_val, in_plane[idx]);
                            out_plane[p] = v;
                            proof {
                                assert(elem_acc(*mac, g, x, w, init, before, p as int, q));
                                lemma_elem_step(*mac, g, x, w, init, before, p as int, q, w[q], x[idx as int], v);
                                assert(out_plane@ == before.update(p as int, v));
                                assert forall|p2: int|
                                    0 <= p2 < init.len() && in_row(p2, out_w as int, oh as int) && ow_start <= p2 % (out_w as int) < ow + 1
                                        implies #[trigger] elem_acc(*mac, g, x, w, init, out_plane@, p2, q1) by {
                                    if p2 != p {
                                        lemma_div_lt(p2, g.out_h as int, out_w as int);
                                        assert(elem_acc(*mac, g, x, w, init, before, p2, q1));
                                    }
                                }
                                assert forall|p2: int|
                                    0 <= p2 < init.len() && in_row(p2, out_w as int, oh as int) && !(ow_start <= p2 % (out_w as int) < ow + 1)
                                        implies #[trigger] elem_acc(*mac, g, x, w, init, out_plane@, p2, q) by {
                                    assert(elem_acc(*mac, g, x, w, init, before, p2, q));
                                }
                                assert forall|p2: int| 0 <= p2 < init.len() && p2 / (out_w as int) < oh implies #[trigger] elem_acc(*mac, g, x, w, init, out_plane@, p2, kall) by {
                                    assert(elem_acc(*mac, g, x, w, init, before, p2, kall));
                                }
                                assert forall|p2: int| 0 <= p2 < init.len() && p2 / (out_w as int) > oh implies #[trigger] out_plane@[p2] == init[p2] by {
                                    assert(before[p2] == init[p2]);
                                }
                            }
                            ow += 1;
                        }
                        proof {
                            assert forall|p2: int| 0 <= p2 < init.len() && in_row(p2, out_w as int, oh as int) implies #[trigger] elem_acc(*mac, g, x, w, init, out_plane@, p2, q1) by {
                                if !(ow_start <= p2 % (out_w as int) < ow_end) {
                                    assert(elem_acc(*mac, g, x, w, init, out_plane@, p2, q));
                                    lemma_div_lt(p2, g.out_h as int, out_w as int);
                                    lemma_tap_in_ranges(x, w, g, oh_ranges@, ow_ranges@, kh as int, kw as int, oh as int, p2 % (out_w as int));
                                    lemma_elem_skip(*mac, g, x, w, init, out_plane@, p2, q);
                                }
                            }
                        }
                    } else {
                        proof {
                            assert forall|p2: int| 0 <= p2 < init.len() && in_row(p2, out_w as int, oh as int) implies #[trigger] elem_acc(*mac, g, x, w, init, out_plane@, p2, q1) by {
                                assert(elem_acc(*mac, g, x, w, init, out_plane@, p2, q));
                                lemma_div_lt(p2, g.out_h as int, out_w as int);
                                lemma_tap_in_ranges(x, w, g, oh_ranges@, ow_ranges@, kh as int, kw as int, oh as int, p2 % (out_w as int));
                                lemma_elem_skip(*mac, g, x, w, init, out_plane@, p2, q);
                            }
                        }
                    }
                    kw += 1;
                    proof {
                        q = q1;
                    }
                }
            }
            kh += 1;
        }
        proof {
            assert forall|p: int| 0 <= p < init.len() && p / (out_w as int) < oh + 1 implies #[trigger] elem_acc(*mac, g, x, w, init, out_plane@, p, kall) by {
                if p / (out_w as int) == oh {
                    assert(in_row(p, out_w as int, oh as int));
                }
            }
        }
        oh += 1;
    }
    proof {
        assert forall|p: int| 0 <= p < init.len() implies #[trigger] elem_acc(*mac, g, x, w, init, out_plane@, p, kall) by {
            lemma_div_lt(p, g.out_h as int, out_w as int);
        }
        lemma_elem_all(*mac, g, x, w, init, out_plane@);
    }
}

/// Output-plane element count above which `conv_plane_accumulate` switches
/// from the `kh, kw, oh, ow` loop order to `oh, kh, kw, ow`: above it the
/// plane no longer fits in a 32 KB first-level data cache.
pub const CONV_PLANE_OH_OUTER_THRESHOLD: usize = 8192;

/// Accumulate one 2D conv plane: `out_plane += conv2d(in_plane, w_plane)`,
/// using the precomputed per-tap output ranges instead of padding checks.
///
/// `out_plane` holds the running accumulator on entry. Large planes are
/// traversed row by row, small ones kernel position by kernel position; both
/// orders apply, to every output element, the same steps in the same order.
pub fn conv_plane_accumulate<T: Copy, M: Fn(T, T, T) -> T>(
    out_plane: &mut [T],
    in_plane: &[T],
    w_plane: &[T],
    kernel_h: usize,
    kernel_w: usize,
    in_w: usize,
    out_w: usize,
    stride_h: usize,
    stride_w: usize,
    pad_h: usize,
    pad_w: usize,
    dilation_h: usize,
    dilation_w: usize,
    oh_ranges: &[(usize, usize)],
    ow_ranges: &[(usize, usize)],
    mac: &M,
)
    requires
        plane_ok(
            plane_geom(old(out_plane)@.len() as int, in_plane@.len() as int, kernel_h, kernel_w, in_w, out_w,
                stride_h, stride_w, pad_h, pad_w, dilation_h, dilation_w),
            old(out_plane)@.len() as int,
            in_plane@.len() as int,
            w_plane@.len() as int,
            oh_ranges@,
            ow_ranges@,
        ),
        forall|a: T, b: T, c: T| call_requires(*mac, (a, b, c)),
    ensures
        plane_accumulated(
            *mac,
            plane_geom(old(out_plane)@.len() as int, in_plane@.len() as int, kernel_h, kernel_w, in_w, out_w,
                stride_h, stride_w, pad_h, pad_w, dilation_h, dilation_w),
            in_plane@,
            w_plane@,
            old(out_plane)@,
            final(out_plane)@,
        ),
{
    if out_plane.len() > CONV_PLANE_OH_OUTER_THRESHOLD {
        conv_plane_accumulate_oh_outer(
            out_plane, in_plane, w_plane, kernel_h, kernel_w, in_w, out_w, stride_h, stride_w, pad_h, pad_w,
            dilation_h, dilation_w, oh_ranges, ow_ranges, mac,
        );
    } else {
        conv_plane_accumulate_kh_outer(
            out_plane, in_plane, w_plane, kernel_h, kernel_w, in_w, out_w, stride_h, stride_w, pad_h, pad_w,
            dilation_h, dilation_w, oh_ranges, ow_ranges, mac,
        );
    }
}

/// With a deterministic multiply-accumulate, accumulating a plane has one
/// result: the row-outermost and kernel-outermost loop orders agree.
pub proof fn lemma_plane_accumulated_unique<T, M: Fn(T, T, T) -> T>(
    mac: M,
    g: PlaneGeom,
    x: Seq<T>,
    w: Seq<T>,
    before: Seq<T>,
    a1: Seq<T>,
    a2: Seq<T>,
)
    requires
        mac_deterministic(mac),
        plane_accumulated(mac, g, x, w, before, a1),
        plane_accumulated(mac, g, x, w, before, a2),
    ensures
        a1 == a2,
{
    assert forall|p: int| 0 <= p < a1.len() implies a1[p] == a2[p] by {
        assert(macs_to(mac, before[p], out_steps(x, w, g, p), a1[p]));
        assert(macs_to(mac, before[p], out_steps(x, w, g, p), a2[p]));
        lemma_macs_to_unique(mac, before[p], out_steps(x, w, g, p), a1[p], a2[p]);
    }
    assert(a1 =~= a2);
}

} // verus!
