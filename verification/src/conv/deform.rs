//! Deformable 2D convolution: each kernel tap reads the input at its
//! regular position shifted by a learned offset, through a caller-supplied
//! sampler (bilinear interpolation), optionally scaled by a mask; the
//! sampled columns then go through one matrix product per batch and weight
//! group.
use vstd::prelude::*;
use vstd::slice::slice_subrange;
use crate::arith::{lemma_div_lt, lemma_div_mod_offset, lemma_offset2, lemma_mul_nonneg};
use crate::attention::score::{gemm_ready, product_of};
use crate::tensor::{DType, HostTensor, lemma_numel_4};
use super::{add_bias, bias_data, biased};

verus! {

/// Extents of a deformable convolution, read off the input `[batch,
/// c_in, in_h, in_w]`, weight `[c_out, icpg, kh, kw]` and offset `[batch,
/// off_c, out_h, out_w]` shapes, with the call's options.
#[derive(Clone, Copy)]
pub struct DeformGeom {
    pub batch: usize,
    pub c_in: usize,
    pub in_h: usize,
    pub in_w: usize,
    pub c_out: usize,
    pub icpg: usize,
    pub kh: usize,
    pub kw: usize,
    pub out_h: usize,
    pub out_w: usize,
    pub off_c: usize,
    pub stride: [usize; 2],
    pub padding: [usize; 2],
    pub dilation: [usize; 2],
    pub weight_groups: usize,
    pub offset_groups: usize,
}

pub open spec fn deform_geom(
    xs: Seq<usize>,
    ws: Seq<usize>,
    os: Seq<usize>,
    stride: [usize; 2],
    padding: [usize; 2],
    dilation: [usize; 2],
    weight_groups: usize,
    offset_groups: usize,
) -> DeformGeom {
    DeformGeom {
        batch: xs[0],
        c_in: xs[1],
        in_h: xs[2],
        in_w: xs[3],
        c_out: ws[0],
        icpg: ws[1],
        kh: ws[2],
        kw: ws[3],
        out_h: os[2],
        out_w: os[3],
        off_c: os[1],
        stride,
        padding,
        dilation,
        weight_groups,
        offset_groups,
    }
}

impl DeformGeom {
    pub open spec fn spatial(self) -> int {
        self.out_h * self.out_w
    }

    pub open spec fn taps(self) -> int {
        self.kh * self.kw
    }

    /// Rows of a sampled column matrix: `(kh, kw, channel)` in that order.
    pub open spec fn col_len(self) -> int {
        self.icpg * self.kh * self.kw
    }

    pub open spec fn ocpg(self) -> int {
        self.c_out as int / self.weight_groups as int
    }

    pub open spec fn cpog(self) -> int {
        self.c_in as int / self.offset_groups as int
    }

    /// The shapes agree, the groups divide the channels, and every index
    /// the convolution forms fits in `usize`.
    pub open spec fn valid(self) -> bool {
        &&& self.weight_groups >= 1
        &&& self.offset_groups >= 1
        &&& self.c_in == self.weight_groups * self.icpg
        &&& self.c_in as int % self.offset_groups as int == 0
        &&& self.c_out as int % self.weight_groups as int == 0
        &&& self.off_c == self.offset_groups * self.kh * self.kw * 2
        &&& self.spatial() <= usize::MAX
        &&& self.taps() <= usize::MAX
        &&& self.col_len() <= usize::MAX
        &&& self.batch * self.c_out * self.spatial() <= usize::MAX
        &&& self.col_len() * self.spatial() <= usize::MAX
        &&& (self.out_h == 0 || self.kh == 0 || (self.out_h - 1) * self.stride[0] + (self.kh - 1) * self.dilation[0]
            <= usize::MAX)
        &&& (self.out_w == 0 || self.kw == 0 || (self.out_w - 1) * self.stride[1] + (self.kw - 1) * self.dilation[1]
            <= usize::MAX)
    }
}

/// The weights as a `[c_out, kh * kw * icpg]` matrix whose columns run over
/// `(kh, kw, channel)`.
pub open spec fn deform_kernel_matrix<T>(w: Seq<T>, g: DeformGeom) -> Seq<T> {
    Seq::new(
        (g.c_out * g.col_len()) as nat,
        |i: int|
            {
                let oc = i / g.col_len();
                let r = i % g.col_len();
                let k = r / (g.icpg as int);
                let ic = r % (g.icpg as int);
                w[(oc * g.icpg + ic) * g.taps() + k]
            },
    )
}

/// The `[in_h, in_w]` plane of channel `c` of sample `b`.
pub open spec fn input_plane<T>(x: Seq<T>, g: DeformGeom, b: int, c: int) -> Seq<T> {
    let n = g.in_h * g.in_w;
    x.subrange((b * g.c_in + c) * n, (b * g.c_in + c) * n + n)
}

/// `val` is the column entry of input channel `c` of sample `b`, kernel tap
/// `(i, j)` and output position `s`: what `sample` returned for the plane,
/// the tap's regular position (before padding) and its two offsets, scaled
/// by the mask entry when there is a mask.
pub open spec fn deform_sample<T, S, M>(
    sample: S,
    mul_fn: M,
    x: Seq<T>,
    offset: Seq<T>,
    mask: Option<Seq<T>>,
    g: DeformGeom,
    b: int,
    c: int,
    i: int,
    j: int,
    s: int,
    val: T,
) -> bool where
    S: Fn(&[T], usize, usize, usize, usize, usize, usize, T, T) -> T,
    M: Fn(T, T) -> T,
 {
    let og = c / g.cpog();
    let k = i * g.kw + j;
    let oh = s / (g.out_w as int);
    let ow = s % (g.out_w as int);
    let sp = g.spatial();
    let oc_h = og * g.taps() * 2 + k * 2;
    let off_h = offset[(b * g.off_c + oc_h) * sp + s];
    let off_w = offset[(b * g.off_c + oc_h + 1) * sp + s];
    exists|a: &[T], v0: T|
        #[trigger] call_ensures(
            sample,
            (
                a,
                g.in_h,
                g.in_w,
                (oh * g.stride[0] + i * g.dilation[0]) as usize,
                g.padding[0],
                (ow * g.stride[1] + j * g.dilation[1]) as usize,
                g.padding[1],
                off_h,
                off_w,
            ),
            v0,
        ) && a@ == input_plane(x, g, b, c) && match mask {
            Option::None => val == v0,
            Option::Some(m) => call_ensures(mul_fn, (v0, m[(b * g.offset_groups * g.taps() + og * g.taps() + k) * sp + s]), val),
        }
}

/// `col` is the `[col_len, spatial]` sampled column matrix of sample `b`
/// and weight group `grp`.
pub open spec fn deform_col_ok<T, S, M>(
    sample: S,
    mul_fn: M,
    x: Seq<T>,
    offset: Seq<T>,
    mask: Option<Seq<T>>,
    g: DeformGeom,
    b: int,
    grp: int,
    col: Seq<T>,
) -> bool where
    S: Fn(&[T], usize, usize, usize, usize, usize, usize, T, T) -> T,
    M: Fn(T, T) -> T,
 {
    let sp = g.spatial();
    let icpg = g.icpg as int;
    &&& col.len() == g.col_len() * sp
    &&& forall|row: int, s: int|
        0 <= row < g.col_len() && 0 <= s < sp ==> #[trigger] deform_sample(
            sample,
            mul_fn,
            x,
            offset,
            mask,
            g,
            b,
            grp * icpg + row % icpg,
            (row / icpg) / (g.kw as int),
            (row / icpg) % (g.kw as int),
            s,
            col[row * sp + s],
        )
}

/// Output element `i` before the bias is `v`: the entry of its channel and
/// position in the product `gemm` returned for its weight group's kernel
/// rows and its sample's column matrix for that group.
pub open spec fn deform_elem<T, S, M, G>(
    gemm: G,
    sample: S,
    mul_fn: M,
    x: Seq<T>,
    offset: Seq<T>,
    mask: Option<Seq<T>>,
    w: Seq<T>,
    g: DeformGeom,
    i: int,
    v: T,
) -> bool where
    S: Fn(&[T], usize, usize, usize, usize, usize, usize, T, T) -> T,
    M: Fn(T, T) -> T,
    G: Fn(&[T], &[T], usize, usize, usize) -> Vec<T>,
 {
    let sp = g.spatial();
    let q = i / sp;
    let s = i % sp;
    let b = q / (g.c_out as int);
    let oc = q % (g.c_out as int);
    let ocpg = g.ocpg();
    let grp = oc / ocpg;
    let cl = g.col_len();
    exists|col: Seq<T>, r: Seq<T>|
        #[trigger] deform_col_ok(sample, mul_fn, x, offset, mask, g, b, grp, col) && #[trigger] product_of(
            gemm,
            deform_kernel_matrix(w, g).subrange(grp * ocpg * cl, grp * ocpg * cl + ocpg * cl),
            col,
            ocpg,
            cl,
            sp,
            r,
        ) && v == r[(oc - grp * ocpg) * sp + s]
}

/// Output element `i` is `r`: its product entry plus the bias of its
/// channel.
pub open spec fn deform_out_elem<T, S, M, A, G>(
    gemm: G,
    sample: S,
    mul_fn: M,
    add_fn: A,
    x: Seq<T>,
    offset: Seq<T>,
    mask: Option<Seq<T>>,
    w: Seq<T>,
    bias: Option<Seq<T>>,
    g: DeformGeom,
    i: int,
    r: T,
) -> bool where
    S: Fn(&[T], usize, usize, usize, usize, usize, usize, T, T) -> T,
    M: Fn(T, T) -> T,
    A: Fn(T, T) -> T,
    G: Fn(&[T], &[T], usize, usize, usize) -> Vec<T>,
 {
    exists|v: T|
        #[trigger] deform_elem(gemm, sample, mul_fn, x, offset, mask, w, g, i, v) && biased(
            add_fn,
            bias,
            (i / g.spatial()) % (g.c_out as int),
            v,
            r,
        )
}

/// `out` is the `[batch, c_out, out_h, out_w]` deformable convolution.
pub open spec fn deform_result<T, S, M, A, G>(
    gemm: G,
    sample: S,
    mul_fn: M,
    add_fn: A,
    x: Seq<T>,
    offset: Seq<T>,
    mask: Option<Seq<T>>,
    w: Seq<T>,
    bias: Option<Seq<T>>,
    g: DeformGeom,
    out: Seq<T>,
) -> bool where
    S: Fn(&[T], usize, usize, usize, usize, usize, usize, T, T) -> T,
    M: Fn(T, T) -> T,
    A: Fn(T, T) -> T,
    G: Fn(&[T], &[T], usize, usize, usize) -> Vec<T>,
 {
    &&& out.len() == g.batch * g.c_out * g.spatial()
    &&& forall|i: int|
        0 <= i < out.len() ==> #[trigger] deform_out_elem(gemm, sample, mul_fn, add_fn, x, offset, mask, w, bias, g, i, out[i])
}

/// The weights rearranged as `deform_kernel_matrix`.
fn flatten_deform_kernel<T: Copy>(weight: &Vec<T>, g: &DeformGeom) -> (r: Vec<T>)
    requires
        weight@.len() == g.c_out * g.icpg * g.kh * g.kw,
    ensures
        r@ == deform_kernel_matrix(weight@, *g),
{
    let c_out = g.c_out;
    let icpg = g.icpg;
    let _wlen = weight.len();
    if c_out == 0 || icpg == 0 || g.kh == 0 || g.kw == 0 {
        let r: Vec<T> = Vec::new();
        proof {
            assert(g.c_out * g.col_len() == 0) by (nonlinear_arith)
                requires g.c_out == 0 || g.icpg == 0 || g.kh == 0 || g.kw == 0;
            assert(r@ =~= deform_kernel_matrix(weight@, *g));
        }
        return r;
    }
    proof {
        assert(g.kh * g.kw <= g.c_out * g.icpg * g.kh * g.kw) by (nonlinear_arith)
            requires g.c_out >= 1, g.icpg >= 1, g.kh >= 1, g.kw >= 1;
        assert(g.c_out * g.icpg <= g.c_out * g.icpg * g.kh * g.kw) by (nonlinear_arith)
            requires g.c_out >= 1, g.icpg >= 1, g.kh >= 1, g.kw >= 1;
        assert(g.icpg * (g.kh * g.kw) <= g.c_out * g.icpg * g.kh * g.kw) by (nonlinear_arith)
            requires g.c_out >= 1, g.icpg >= 1, g.kh >= 1, g.kw >= 1;
        assert(g.c_out * (g.icpg * (g.kh * g.kw)) == g.c_out * g.icpg * g.kh * g.kw) by (nonlinear_arith);
    }
    let taps = g.kh * g.kw;
    let col_len = icpg * taps;
    let total = c_out * col_len;
    proof {
        assert(g.col_len() == col_len) by (nonlinear_arith)
            requires col_len == icpg * taps, taps == g.kh * g.kw, icpg == g.icpg;
        assert(taps >= 1) by (nonlinear_arith)
            requires taps == g.kh * g.kw, g.kh >= 1, g.kw >= 1;
    }
    let mut r: Vec<T> = Vec::new();
    let mut t: usize = 0;
    while t < total
        invariant
            t <= total,
            total == c_out * col_len,
            col_len == icpg * taps,
            col_len == g.col_len(),
            c_out == g.c_out,
            c_out * icpg <= total,
            icpg >= 1,
            taps >= 1,
            taps == g.taps(),
            icpg == g.icpg,
            weight@.len() == total,
            r@.len() == t,
            forall|u: int| 0 <= u < t ==> #[trigger] r@[u] == deform_kernel_matrix(weight@, *g)[u],
        decreases total - t,
    {
        proof {
            lemma_div_lt(t as int, c_out as int, col_len as int);
            assert(col_len == taps * icpg) by (nonlinear_arith)
                requires col_len == icpg * taps;
            lemma_div_lt((t % col_len) as int, taps as int, icpg as int);
        }
        let oc = t / col_len;
        let rr = t % col_len;
        let k = rr / icpg;
        let ic = rr % icpg;
        proof {
            lemma_offset2(oc as int, ic as int, c_out as int, icpg as int);
            lemma_offset2((oc * icpg + ic) as int, k as int, (c_out * icpg) as int, taps as int);
            assert((c_out * icpg) * taps == total) by (nonlinear_arith)
                requires total == c_out * col_len, col_len == icpg * taps;
        }
        let v = weight[(oc * icpg + ic) * taps + k];
        r.push(v);
        t = t + 1;
    }
    proof {
        assert(r@ =~= deform_kernel_matrix(weight@, *g));
    }
    r
}

} // verus!

verus! {

/// Offset and mask positions of a tap lie inside their tensors.
pub proof fn lemma_deform_indices(g: DeformGeom, b: int, c: int, k: int, s: int)
    requires
        g.valid(),
        0 <= b < g.batch,
        0 <= c < g.c_in,
        0 <= k < g.taps(),
        0 <= s < g.spatial(),
    ensures
        g.cpog() >= 1,
        0 <= c / g.cpog() < g.offset_groups,
        0 <= (c / g.cpog()) * g.taps() * 2,
        (c / g.cpog()) * g.taps() * 2 + k * 2 + 1 < g.off_c,
        b * g.off_c + (c / g.cpog()) * g.taps() * 2 + k * 2 + 1 < g.batch * g.off_c,
        0 <= b * g.off_c,
        g.batch * g.off_c <= g.batch * g.off_c * g.spatial(),
        0 <= b * g.offset_groups * g.taps(),
        b * g.offset_groups <= b * g.offset_groups * g.taps(),
        b * g.offset_groups * g.taps() + (c / g.cpog()) * g.taps() + k < g.batch * g.offset_groups * g.taps(),
        g.batch * g.offset_groups * g.taps() <= g.batch * g.offset_groups * g.taps() * g.spatial(),
        0 <= (b * g.off_c + (c / g.cpog()) * g.taps() * 2 + k * 2 + 1) * g.spatial() + s < g.batch * g.off_c * g.spatial(),
        0 <= (b * g.off_c + (c / g.cpog()) * g.taps() * 2 + k * 2) * g.spatial() + s,
        (b * g.off_c + (c / g.cpog()) * g.taps() * 2 + k * 2) * g.spatial() + s < g.batch * g.off_c * g.spatial(),
        0 <= (b * g.offset_groups * g.taps() + (c / g.cpog()) * g.taps() + k) * g.spatial() + s < g.batch
            * g.offset_groups * g.taps() * g.spatial(),
{
    let ogc = g.offset_groups as int;
    let cin = g.c_in as int;
    let cpog = g.cpog();
    let taps = g.taps();
    let sp = g.spatial();
    vstd::arithmetic::div_mod::lemma_fundamental_div_mod(cin, ogc);
    assert(cin == ogc * cpog);
    assert(cpog >= 1) by (nonlinear_arith)
        requires cin == ogc * cpog, cin > c, c >= 0, ogc >= 1;
    assert(cin == cpog * ogc) by (nonlinear_arith)
        requires cin == ogc * cpog;
    lemma_div_lt(c, ogc, cpog);
    let og = c / cpog;
    // Offset channel of the tap, inside `off_c = ogc * taps * 2`.
    assert(og * taps * 2 + k * 2 + 1 < g.off_c) by (nonlinear_arith)
        requires og < ogc, og >= 0, k < taps, k >= 0, g.off_c == ogc * g.kh * g.kw * 2, taps == g.kh * g.kw;
    assert(0 <= og * taps * 2) by (nonlinear_arith)
        requires og >= 0, taps >= 0;
    lemma_offset2(b, og * taps * 2 + k * 2 + 1, g.batch as int, g.off_c as int);
    lemma_offset2(b * g.off_c + og * taps * 2 + k * 2 + 1, s, g.batch * g.off_c, sp);
    assert(0 <= b * g.off_c) by (nonlinear_arith)
        requires b >= 0, g.off_c >= 0;
    assert(0 <= (b * g.off_c + og * taps * 2 + k * 2) * sp) by (nonlinear_arith)
        requires b * g.off_c + og * taps * 2 + k * 2 >= 0, sp >= 0;
    // Mask channel of the tap, inside `ogc * taps`.
    lemma_offset2(og, k, ogc, taps);
    lemma_offset2(b, og * taps + k, g.batch as int, ogc * taps);
    assert(b * (ogc * taps) == b * ogc * taps) by (nonlinear_arith);
    lemma_offset2(b * ogc * taps + og * taps + k, s, g.batch * (ogc * taps), sp);
    assert(g.batch * (ogc * taps) * sp == g.batch * ogc * taps * sp) by (nonlinear_arith);
    assert(g.batch * (ogc * taps) == g.batch * ogc * taps) by (nonlinear_arith);
    assert(g.batch * g.off_c <= g.batch * g.off_c * sp) by (nonlinear_arith)
        requires sp >= 1, g.batch * g.off_c >= 0;
    assert(g.batch * ogc * taps <= g.batch * ogc * taps * sp) by (nonlinear_arith)
        requires sp >= 1, g.batch * ogc * taps >= 0;
    assert(0 <= b * ogc * taps) by (nonlinear_arith)
        requires b >= 0, ogc >= 0, taps >= 0;
    assert(b * ogc <= b * ogc * taps) by (nonlinear_arith)
        requires taps >= 1, b >= 0, ogc >= 0;
    let x0 = b * g.off_c + og * taps * 2 + k * 2;
    assert(x0 * sp + s < (x0 + 1) * sp + s) by (nonlinear_arith)
        requires sp >= 1;
}

/// The sampled `[col_len, spatial]` column matrix of sample `b` and weight
/// group `grp`.
fn deform_im2col<T: Copy, S, M>(
    x: &Vec<T>,
    offset: &Vec<T>,
    mask: Option<&[T]>,
    g: &DeformGeom,
    b: usize,
    grp: usize,
    sample: &S,
    mul_fn: &M,
) -> (col: Vec<T>) where
    S: Fn(&[T], usize, usize, usize, usize, usize, usize, T, T) -> T,
    M: Fn(T, T) -> T,

    requires
        g.valid(),
        b < g.batch,
        grp < g.weight_groups,
        x@.len() == g.batch * g.c_in * g.in_h * g.in_w,
        offset@.len() == g.batch * g.off_c * g.spatial(),
        mask is Some ==> mask->0@.len() == g.batch * g.offset_groups * g.taps() * g.spatial(),
        forall|a: &[T], h: usize, w: usize, ph: usize, pp: usize, pw: usize, pq: usize, u: T, v: T|
            call_requires(*sample, (a, h, w, ph, pp, pw, pq, u, v)),
        forall|a: T, c: T| call_requires(*mul_fn, (a, c)),
    ensures
        deform_col_ok(*sample, *mul_fn, x@, offset@, crate::attention::score::opt_view(mask), *g, b as int, grp as int, col@),
{
    let icpg = g.icpg;
    let sp = g.out_h * g.out_w;
    let taps = g.kh * g.kw;
    let ghost mview = crate::attention::score::opt_view(mask);
    let _xlen = x.len();
    let _olen = offset.len();
    match mask {
        Option::Some(m) => {
            let _mlen = m.len();
        },
        Option::None => {},
    }
    if icpg == 0 || taps == 0 || sp == 0 {
        let col: Vec<T> = Vec::new();
        proof {
            assert(g.col_len() * g.spatial() == 0) by (nonlinear_arith)
                requires icpg == g.icpg, taps == g.kh * g.kw, sp == g.out_h * g.out_w, g.col_len() == g.icpg * g.kh * g.kw,
                    icpg == 0 || taps == 0 || sp == 0;
            assert(g.col_len() == 0 || g.spatial() == 0) by (nonlinear_arith)
                requires icpg == g.icpg, taps == g.kh * g.kw, sp == g.out_h * g.out_w, g.col_len() == g.icpg * g.kh * g.kw,
                    icpg == 0 || taps == 0 || sp == 0;
        }
        return col;
    }
    proof {
        assert(g.col_len() == icpg * taps) by (nonlinear_arith)
            requires icpg == g.icpg, taps == g.kh * g.kw, g.col_len() == g.icpg * g.kh * g.kw;
        assert(icpg * taps <= g.col_len() * g.spatial()) by (nonlinear_arith)
            requires g.col_len() == icpg * taps, g.spatial() == sp, sp >= 1, icpg >= 0, taps >= 0;
        assert(g.c_in >= 1) by (nonlinear_arith)
            requires g.c_in == g.weight_groups * g.icpg, g.weight_groups >= 1, g.icpg >= 1;
        assert(g.in_h * g.in_w <= x@.len()) by (nonlinear_arith)
            requires x@.len() == g.batch * g.c_in * g.in_h * g.in_w, g.batch >= 1, g.c_in >= 1;
    }
    let col_len = icpg * taps;
    let total = col_len * sp;
    let hw = g.in_h * g.in_w;
    let kw = g.kw;
    let ow_n = g.out_w;
    let mut col: Vec<T> = Vec::new();
    let mut t: usize = 0;
    while t < total
        invariant
            t <= total,
            total == col_len * sp,
            col_len == icpg * taps,
            col_len == g.col_len(),
            sp == g.spatial(),
            sp >= 1,
            icpg == g.icpg,
            icpg >= 1,
            taps == g.taps(),
            kw == g.kw,
            ow_n == g.out_w,
            hw == g.in_h * g.in_w,
            g.valid(),
            b < g.batch,
            grp < g.weight_groups,
            x@.len() == g.batch * g.c_in * g.in_h * g.in_w,
            offset@.len() == g.batch * g.off_c * g.spatial(),
            x@.len() <= usize::MAX,
            offset@.len() <= usize::MAX,
            mask is Some ==> mask->0@.len() == g.batch * g.offset_groups * g.taps() * g.spatial(),
            mask is Some ==> mask->0@.len() <= usize::MAX,
            mview == crate::attention::score::opt_view(mask),
            forall|a: &[T], h: usize, w: usize, ph: usize, pp: usize, pw: usize, pq: usize, u: T, v: T|
                call_requires(*sample, (a, h, w, ph, pp, pw, pq, u, v)),
            forall|a: T, c: T| call_requires(*mul_fn, (a, c)),
            col@.len() == t,
            forall|u: int|
                0 <= u < t ==> #[trigger] deform_sample(
                    *sample,
                    *mul_fn,
                    x@,
                    offset@,
                    mview,
                    *g,
                    b as int,
                    grp * icpg + (u / sp as int) % icpg as int,
                    ((u / sp as int) / icpg as int) / (kw as int),
                    ((u / sp as int) / icpg as int) % (kw as int),
                    u % sp as int,
                    col@[u],
                ),
        decreases total - t,
    {
        proof {
            lemma_div_lt(t as int, col_len as int, sp as int);
            assert(col_len == taps * icpg) by (nonlinear_arith)
                requires col_len == icpg * taps;
            lemma_div_lt((t / sp) as int, taps as int, icpg as int);
            assert(kw >= 1 && g.kh >= 1) by (nonlinear_arith)
                requires taps == g.kh * g.kw, taps >= 1, kw == g.kw;
            assert(taps == g.kh * kw);
            lemma_div_lt(((t / sp) / icpg) as int, g.kh as int, kw as int);
            assert(ow_n >= 1 && g.out_h >= 1) by (nonlinear_arith)
                requires sp == g.out_h * g.out_w, sp >= 1, ow_n == g.out_w;
            assert(sp == g.out_h * ow_n);
            lemma_div_lt((t % sp) as int, g.out_h as int, ow_n as int);
        }
        let row = t / sp;
        let s = t % sp;
        let k = row / icpg;
        let ic = row % icpg;
        let i = k / kw;
        let j = k % kw;
        let oh = s / ow_n;
        let ow = s % ow_n;
        proof {
            assert(grp * icpg + ic < g.c_in) by (nonlinear_arith)
                requires grp < g.weight_groups, ic < icpg, g.c_in == g.weight_groups * g.icpg, icpg == g.icpg;
            assert(0 <= grp * icpg) by (nonlinear_arith)
                requires grp >= 0, icpg >= 0;
            lemma_deform_indices(*g, b as int, grp * icpg + ic, k as int, s as int);
            lemma_offset2(b as int, grp * icpg + ic, g.batch as int, g.c_in as int);
            assert((b * g.c_in + grp * icpg + ic) * hw + hw <= x@.len()) by (nonlinear_arith)
                requires
                    b * g.c_in + grp * icpg + ic + 1 <= g.batch * g.c_in,
                    x@.len() == g.batch * g.c_in * g.in_h * g.in_w,
                    hw == g.in_h * g.in_w,
                    hw >= 0;
            assert(0 <= (b * g.c_in + grp * icpg + ic) * hw) by (nonlinear_arith)
                requires b * g.c_in + grp * icpg + ic >= 0, hw >= 0;
            assert(oh * g.stride[0] + i * g.dilation[0] <= (g.out_h - 1) * g.stride[0] + (g.kh - 1) * g.dilation[0]) by (nonlinear_arith)
                requires oh <= g.out_h - 1, i <= g.kh - 1, g.stride[0] >= 0, g.dilation[0] >= 0, oh >= 0, i >= 0;
            assert(ow * g.stride[1] + j * g.dilation[1] <= (g.out_w - 1) * g.stride[1] + (g.kw - 1) * g.dilation[1]) by (nonlinear_arith)
                requires ow <= g.out_w - 1, j <= g.kw - 1, g.stride[1] >= 0, g.dilation[1] >= 0, ow >= 0, j >= 0;
            assert(0 <= oh * g.stride[0] && 0 <= i * g.dilation[0] && 0 <= ow * g.stride[1] && 0 <= j * g.dilation[1]) by (nonlinear_arith)
                requires oh >= 0, i >= 0, ow >= 0, j >= 0;
            assert(k == i * kw + j);
        }
        let c = grp * icpg + ic;
        let og = c / (g.c_in / g.offset_groups);
        proof {
            if hw > 0 {
                assert(g.batch * g.c_in <= x@.len()) by (nonlinear_arith)
                    requires x@.len() == g.batch * g.c_in * g.in_h * g.in_w, hw == g.in_h * g.in_w, hw >= 1;
            }
        }
        let plane_start = if hw == 0 { 0 } else { (b * g.c_in + c) * hw };
        let plane = slice_subrange(x.as_slice(), plane_start, plane_start + hw);
        let oc_h = og * taps * 2 + k * 2;
        let off_h = offset[(b * g.off_c + oc_h) * sp + s];
        let off_w = offset[(b * g.off_c + oc_h + 1) * sp + s];
        let pos_h = oh * g.stride[0] + i * g.dilation[0];
        let pos_w = ow * g.stride[1] + j * g.dilation[1];
        let v0 = sample(plane, g.in_h, g.in_w, pos_h, g.padding[0], pos_w, g.padding[1], off_h, off_w);
        let val = match mask {
            Option::Some(m) => {
                let midx = (b * g.offset_groups * taps + og * taps + k) * sp + s;
                mul_fn(v0, m[midx])
            },
            Option::None => v0,
        };
        col.push(val);
        proof {
            assert(plane@ == input_plane(x@, *g, b as int, c as int));
            assert(call_ensures(
                *sample,
                (
                    plane,
                    g.in_h,
                    g.in_w,
                    ((oh as int) * g.stride[0] + (i as int) * g.dilation[0]) as usize,
                    g.padding[0],
                    ((ow as int) * g.stride[1] + (j as int) * g.dilation[1]) as usize,
                    g.padding[1],
                    off_h,
                    off_w,
                ),
                v0,
            ));
            assert(deform_sample(*sample, *mul_fn, x@, offset@, mview, *g, b as int, c as int, i as int, j as int, s as int, val));
        }
        t = t + 1;
    }
    proof {
        assert forall|row: int, s: int| 0 <= row < g.col_len() && 0 <= s < g.spatial() implies #[trigger] deform_sample(
            *sample,
            *mul_fn,
            x@,
            offset@,
            mview,
            *g,
            b as int,
            grp * icpg + row % icpg as int,
            (row / icpg as int) / (g.kw as int),
            (row / icpg as int) % (g.kw as int),
            s,
            col@[row * g.spatial() + s],
        ) by {
            lemma_offset2(row, s, col_len as int, sp as int);
            lemma_div_mod_offset(row, s, sp as int);
            let u = row * sp + s;
            assert(u / sp as int == row && u % sp as int == s);
        }
    }
    col
}

} // verus!

verus! {

/// The operands of a deformable convolution: well-formed 4D input,
/// offsets and weights of agreeing shapes (offsets `[batch, 2 *
/// offset_groups * kh * kw, out_h, out_w]`), an optional mask `[batch,
/// offset_groups * kh * kw, out_h, out_w]` and an optional bias of one
/// entry per output channel.
pub open spec fn deform_inputs_ok<T>(
    x: HostTensor<T>,
    offset: HostTensor<T>,
    weight: HostTensor<T>,
    mask: Option<HostTensor<T>>,
    bias: Option<HostTensor<T>>,
    g: DeformGeom,
) -> bool {
    &&& x.wf()
    &&& offset.wf()
    &&& weight.wf()
    &&& x.shape@.len() == 4
    &&& offset.shape@.len() == 4
    &&& weight.shape@.len() == 4
    &&& offset.shape@[0] == x.shape@[0]
    &&& g.valid()
    &&& match mask {
        Option::Some(m) => m.wf() && m.shape@.len() == 4 && m.shape@[0] == g.batch && m.shape@[1] == g.offset_groups * g.kh * g.kw
            && m.shape@[2] == g.out_h && m.shape@[3] == g.out_w,
        Option::None => true,
    }
    &&& match bias {
        Option::Some(b) => b.data@.len() == g.c_out,
        Option::None => true,
    }
}

/// The sampler, the element operations and the product can be called on
/// anything, and the product has the requested `[m, n]` size.
pub open spec fn deform_ops_ready<T, S, M, A, G>(sample: S, mul_fn: M, add_fn: A, gemm: G) -> bool where
    S: Fn(&[T], usize, usize, usize, usize, usize, usize, T, T) -> T,
    M: Fn(T, T) -> T,
    A: Fn(T, T) -> T,
    G: Fn(&[T], &[T], usize, usize, usize) -> Vec<T>,
 {
    &&& forall|a: &[T], h: usize, w: usize, ph: usize, pp: usize, pw: usize, pq: usize, u: T, v: T|
        call_requires(sample, (a, h, w, ph, pp, pw, pq, u, v))
    &&& forall|a: T, c: T| call_requires(mul_fn, (a, c))
    &&& forall|a: T, c: T| call_requires(add_fn, (a, c))
    &&& gemm_ready(gemm)
}

/// The shared body of the deformable convolutions: per sample and weight
/// group, the sampled columns times the group's kernel rows, then the bias.
fn deform_conv2d_run<T: Copy, S, M, A, G>(
    x: HostTensor<T>,
    offset: HostTensor<T>,
    weight: HostTensor<T>,
    mask: Option<HostTensor<T>>,
    bias: Option<HostTensor<T>>,
    stride: [usize; 2],
    padding: [usize; 2],
    dilation: [usize; 2],
    weight_groups: usize,
    offset_groups: usize,
    sample: &S,
    mul_fn: &M,
    add_fn: &A,
    gemm_nn: &G,
    dtype: DType,
) -> (r: HostTensor<T>) where
    S: Fn(&[T], usize, usize, usize, usize, usize, usize, T, T) -> T,
    M: Fn(T, T) -> T,
    A: Fn(T, T) -> T,
    G: Fn(&[T], &[T], usize, usize, usize) -> Vec<T>,

    requires
        deform_inputs_ok(
            x,
            offset,
            weight,
            mask,
            bias,
            deform_geom(x.shape@, weight.shape@, offset.shape@, stride, padding, dilation, weight_groups, offset_groups),
        ),
        deform_ops_ready(*sample, *mul_fn, *add_fn, *gemm_nn),
    ensures
        r.shape@ == seq![x.shape@[0], weight.shape@[0], offset.shape@[2], offset.shape@[3]],
        r.dtype == dtype,
        r.wf(),
        deform_result(
            *gemm_nn,
            *sample,
            *mul_fn,
            *add_fn,
            x.data@,
            offset.data@,
            bias_data(mask),
            weight.data@,
            bias_data(bias),
            deform_geom(x.shape@, weight.shape@, offset.shape@, stride, padding, dilation, weight_groups, offset_groups),
            r.data@,
        ),
{
    let g = DeformGeom {
        batch: x.shape[0],
        c_in: x.shape[1],
        in_h: x.shape[2],
        in_w: x.shape[3],
        c_out: weight.shape[0],
        icpg: weight.shape[1],
        kh: weight.shape[2],
        kw: weight.shape[3],
        out_h: offset.shape[2],
        out_w: offset.shape[3],
        off_c: offset.shape[1],
        stride,
        padding,
        dilation,
        weight_groups,
        offset_groups,
    };
    let ghost mview: Option<Seq<T>> = bias_data(mask);
    proof {
        assert(g == deform_geom(x.shape@, weight.shape@, offset.shape@, stride, padding, dilation, weight_groups, offset_groups));
        lemma_numel_4(x.shape@);
        lemma_numel_4(offset.shape@);
        lemma_numel_4(weight.shape@);
        if mask is Some {
            lemma_numel_4(mask->0.shape@);
            assert(g.batch * (g.offset_groups * g.kh * g.kw) * g.out_h * g.out_w == g.batch * g.offset_groups * g.taps()
                * g.spatial()) by (nonlinear_arith);
        }
        assert(offset.data@.len() == g.batch * g.off_c * g.spatial()) by (nonlinear_arith)
            requires offset.data@.len() == offset.shape@[0] * offset.shape@[1] * offset.shape@[2] * offset.shape@[3],
                offset.shape@[0] == g.batch, offset.shape@[1] == g.off_c, offset.shape@[2] == g.out_h, offset.shape@[3] == g.out_w;
        assert(weight.data@.len() == g.c_out * g.col_len()) by (nonlinear_arith)
            requires weight.data@.len() == g.c_out * g.icpg * g.kh * g.kw;
    }
    let w_flat = flatten_deform_kernel(&weight.data, &g);
    let ocpg = g.c_out / g.weight_groups;
    proof {
        assert(g.col_len() == g.icpg * (g.kh * g.kw)) by (nonlinear_arith);
    }
    let col_len = g.icpg * (g.kh * g.kw);
    let sp = g.out_h * g.out_w;
    let mask_slice: Option<&[T]> = match &mask {
        Option::Some(m) => Option::Some(m.data.as_slice()),
        Option::None => Option::None,
    };
    proof {
        assert(crate::attention::score::opt_view(mask_slice) == mview);
        vstd::arithmetic::div_mod::lemma_fundamental_div_mod(g.c_out as int, g.weight_groups as int);
        assert(g.c_out == g.weight_groups * ocpg);
    }
    let mut out: Vec<T> = Vec::new();
    let mut b: usize = 0;
    proof {
        assert(0 * g.c_out * sp == 0) by (nonlinear_arith);
    }
    while b < g.batch
        invariant
            b <= g.batch,
            g.valid(),
            g == deform_geom(x.shape@, weight.shape@, offset.shape@, stride, padding, dilation, weight_groups, offset_groups),
            x.data@.len() == g.batch * g.c_in * g.in_h * g.in_w,
            offset.data@.len() == g.batch * g.off_c * g.spatial(),
            mask_slice is Some ==> mask_slice->0@.len() == g.batch * g.offset_groups * g.taps() * g.spatial(),
            crate::attention::score::opt_view(mask_slice) == mview,
            w_flat@ == deform_kernel_matrix(weight.data@, g),
            ocpg == g.ocpg(),
            g.c_out == g.weight_groups * ocpg,
            col_len == g.col_len(),
            sp == g.spatial(),
            deform_ops_ready(*sample, *mul_fn, *add_fn, *gemm_nn),
            out@.len() == b * g.c_out * sp,
            forall|i: int| 0 <= i < out@.len() ==> #[trigger] deform_elem(
                *gemm_nn,
                *sample,
                *mul_fn,
                x.data@,
                offset.data@,
                mview,
                weight.data@,
                g,
                i,
                out@[i],
            ),
        decreases g.batch - b,
    {
        let mut grp: usize = 0;
        while grp < g.weight_groups
            invariant
                b < g.batch,
                grp <= g.weight_groups,
                g.valid(),
                g == deform_geom(x.shape@, weight.shape@, offset.shape@, stride, padding, dilation, weight_groups, offset_groups),
                x.data@.len() == g.batch * g.c_in * g.in_h * g.in_w,
                offset.data@.len() == g.batch * g.off_c * g.spatial(),
                mask_slice is Some ==> mask_slice->0@.len() == g.batch * g.offset_groups * g.taps() * g.spatial(),
                crate::attention::score::opt_view(mask_slice) == mview,
                w_flat@ == deform_kernel_matrix(weight.data@, g),
                ocpg == g.ocpg(),
                g.c_out == g.weight_groups * ocpg,
                col_len == g.col_len(),
                sp == g.spatial(),
                deform_ops_ready(*sample, *mul_fn, *add_fn, *gemm_nn),
                out@.len() == b * g.c_out * sp + grp * ocpg * sp,
                forall|i: int| 0 <= i < out@.len() ==> #[trigger] deform_elem(
                    *gemm_nn,
                    *sample,
                    *mul_fn,
                    x.data@,
                    offset.data@,
                    mview,
                    weight.data@,
                    g,
                    i,
                    out@[i],
                ),
            decreases g.weight_groups - grp,
        {
            let col = deform_im2col(&x.data, &offset.data, mask_slice, &g, b, grp, sample, mul_fn);
            proof {
                assert((grp + 1) * ocpg * col_len <= g.c_out * col_len) by (nonlinear_arith)
                    requires grp + 1 <= g.weight_groups, g.c_out == g.weight_groups * ocpg, ocpg >= 0, col_len >= 0;
                assert(grp * ocpg * col_len + ocpg * col_len == (grp + 1) * ocpg * col_len) by (nonlinear_arith);
                assert(0 <= grp * ocpg * col_len) by (nonlinear_arith)
                    requires grp >= 0, ocpg >= 0, col_len >= 0;
                assert(ocpg * col_len <= g.c_out * col_len) by (nonlinear_arith)
                    requires ocpg <= g.c_out, col_len >= 0;
                assert(ocpg <= g.c_out) by (nonlinear_arith)
                    requires g.c_out == g.weight_groups * ocpg, g.weight_groups >= 1, ocpg >= 0;
            }
            let _wlen = w_flat.len();
            proof {
                assert(grp * ocpg <= g.c_out) by (nonlinear_arith)
                    requires grp <= g.weight_groups, g.c_out == g.weight_groups * ocpg, ocpg >= 0;
            }
            let w_start = grp * ocpg * col_len;
            let w_group = slice_subrange(w_flat.as_slice(), w_start, w_start + ocpg * col_len);
            let rhs = col.as_slice();
            let mut result = gemm_nn(w_group, rhs, ocpg, col_len, sp);
            let ghost res = result@;
            let ghost result_v = result;
            let ghost before = out@;
            out.append(&mut result);
            proof {
                let base = b * g.c_out * sp + grp * ocpg * sp;
                assert forall|i: int| 0 <= i < out@.len() implies #[trigger] deform_elem(
                    *gemm_nn,
                    *sample,
                    *mul_fn,
                    x.data@,
                    offset.data@,
                    mview,
                    weight.data@,
                    g,
                    i,
                    out@[i],
                ) by {
                    if i >= before.len() {
                        let j = i - base;
                        assert(sp > 0 && ocpg > 0) by (nonlinear_arith)
                            requires 0 <= j < ocpg * sp, ocpg >= 0, sp >= 0;
                        lemma_div_lt(j, ocpg as int, sp as int);
                        let c = j / sp as int;
                        let s = j % sp as int;
                        let q = b * g.c_out + grp * ocpg + c;
                        assert(i == q * sp + s) by (nonlinear_arith)
                            requires i == base + j, base == b * g.c_out * sp + grp * ocpg * sp, j == c * sp + s, q == b * g.c_out + grp * ocpg + c;
                        lemma_div_mod_offset(q, s, sp as int);
                        assert(grp * ocpg + c < g.c_out) by (nonlinear_arith)
                            requires c < ocpg, grp + 1 <= g.weight_groups, g.c_out == g.weight_groups * ocpg;
                        lemma_mul_nonneg(grp as int, ocpg as int);
                        lemma_div_mod_offset(b as int, grp * ocpg + c, g.c_out as int);
                        lemma_div_mod_offset(grp as int, c, ocpg as int);
                        assert(call_ensures(*gemm_nn, (w_group, rhs, (ocpg as int) as usize, (col_len as int) as usize, (sp as int) as usize), result_v));
                        assert(w_group@ == deform_kernel_matrix(weight.data@, g).subrange(grp * ocpg * col_len, grp * ocpg * col_len + ocpg * col_len));
                        assert(out@[i] == res[j]);
                        assert(deform_col_ok(*sample, *mul_fn, x.data@, offset.data@, mview, g, b as int, grp as int, col@));
                        assert(product_of(
                            *gemm_nn,
                            deform_kernel_matrix(weight.data@, g).subrange(grp * g.ocpg() * g.col_len(), grp * g.ocpg() * g.col_len() + g.ocpg() * g.col_len()),
                            col@,
                            g.ocpg(),
                            g.col_len(),
                            g.spatial(),
                            res,
                        ));
                        assert(res[(c + grp * ocpg - grp * ocpg) * sp + s] == out@[i]);
                    } else {
                        assert(out@[i] == before[i]);
                    }
                }
                assert(out@.len() == b * g.c_out * sp + (grp + 1) * ocpg * sp) by (nonlinear_arith)
                    requires out@.len() == b * g.c_out * sp + grp * ocpg * sp + ocpg * sp;
            }
            grp = grp + 1;
        }
        proof {
            assert(out@.len() == (b + 1) * g.c_out * sp) by (nonlinear_arith)
                requires out@.len() == b * g.c_out * sp + g.weight_groups * ocpg * sp, g.c_out == g.weight_groups * ocpg;
        }
        b = b + 1;
    }
    let ghost pre_bias = out@;
    match &bias {
        Option::Some(bt) => {
            add_bias(&mut out, bt.data.as_slice(), g.batch, g.c_out, sp, add_fn);
        },
        Option::None => {},
    }
    proof {
        assert forall|i: int| 0 <= i < out@.len() implies #[trigger] deform_out_elem(
            *gemm_nn,
            *sample,
            *mul_fn,
            *add_fn,
            x.data@,
            offset.data@,
            mview,
            weight.data@,
            bias_data(bias),
            g,
            i,
            out@[i],
        ) by {
            assert(deform_elem(*gemm_nn, *sample, *mul_fn, x.data@, offset.data@, mview, weight.data@, g, i, pre_bias[i]));
        }
    }
    let r = HostTensor { shape: vec![g.batch, g.c_out, g.out_h, g.out_w], data: out, dtype };
    proof {
        lemma_numel_4(r.shape@);
        assert(g.batch * g.c_out * (g.out_h * g.out_w) == g.batch * g.c_out * g.out_h * g.out_w) by (nonlinear_arith);
    }
    r
}

/// Deformable 2D convolution of a `[batch, c_in, in_h, in_w]` input with
/// `[c_out, c_in / weight_groups, kh, kw]` weights: every kernel tap reads
/// the input through `sample` at its regular position shifted by its
/// offsets (masked by `mul_fn` with the mask entry when there is a mask),
/// the columns are multiplied with the kernel rows of each weight group
/// through `gemm_nn`, and the bias is added with `add_fn`. The result is
/// tagged `F64`.
pub fn deform_conv2d_f64<T: Copy, S, M, A, G>(
    x: HostTensor<T>,
    offset: HostTensor<T>,
    weight: HostTensor<T>,
    mask: Option<HostTensor<T>>,
    bias: Option<HostTensor<T>>,
    stride: [usize; 2],
    padding: [usize; 2],
    dilation: [usize; 2],
    weight_groups: usize,
    offset_groups: usize,
    sample: &S,
    mul_fn: &M,
    add_fn: &A,
    gemm_nn: &G,
) -> (r: HostTensor<T>) where
    S: Fn(&[T], usize, usize, usize, usize, usize, usize, T, T) -> T,
    M: Fn(T, T) -> T,
    A: Fn(T, T) -> T,
    G: Fn(&[T], &[T], usize, usize, usize) -> Vec<T>,

    requires
        deform_inputs_ok(
            x,
            offset,
            weight,
            mask,
            bias,
            deform_geom(x.shape@, weight.shape@, offset.shape@, stride, padding, dilation, weight_groups, offset_groups),
        ),
        deform_ops_ready(*sample, *mul_fn, *add_fn, *gemm_nn),
    ensures
        r.shape@ == seq![x.shape@[0], weight.shape@[0], offset.shape@[2], offset.shape@[3]],
        r.dtype == DType::F64,
        r.wf(),
        deform_result(
            *gemm_nn,
            *sample,
            *mul_fn,
            *add_fn,
            x.data@,
            offset.data@,
            bias_data(mask),
            weight.data@,
            bias_data(bias),
            deform_geom(x.shape@, weight.shape@, offset.shape@, stride, padding, dilation, weight_groups, offset_groups),
            r.data@,
        ),
{
    deform_conv2d_run(
        x,
        offset,
        weight,
        mask,
        bias,
        stride,
        padding,
        dilation,
        weight_groups,
        offset_groups,
        sample,
        mul_fn,
        add_fn,
        gemm_nn,
        DType::F64,
    )
}

/// `deform_conv2d_f64` with the result tagged `F32`.
pub fn deform_conv2d_f32<T: Copy, S, M, A, G>(
    x: HostTensor<T>,
    offset: HostTensor<T>,
    weight: HostTensor<T>,
    mask: Option<HostTensor<T>>,
    bias: Option<HostTensor<T>>,
    stride: [usize; 2],
    padding: [usize; 2],
    dilation: [usize; 2],
    weight_groups: usize,
    offset_groups: usize,
    sample: &S,
    mul_fn: &M,
    add_fn: &A,
    gemm_nn: &G,
) -> (r: HostTensor<T>) where
    S: Fn(&[T], usize, usize, usize, usize, usize, usize, T, T) -> T,
    M: Fn(T, T) -> T,
    A: Fn(T, T) -> T,
    G: Fn(&[T], &[T], usize, usize, usize) -> Vec<T>,

    requires
        deform_inputs_ok(
            x,
            offset,
            weight,
            mask,
            bias,
            deform_geom(x.shape@, weight.shape@, offset.shape@, stride, padding, dilation, weight_groups, offset_groups),
        ),
        deform_ops_ready(*sample, *mul_fn, *add_fn, *gemm_nn),
    ensures
        r.shape@ == seq![x.shape@[0], weight.shape@[0], offset.shape@[2], offset.shape@[3]],
        r.dtype == DType::F32,
        r.wf(),
        deform_result(
            *gemm_nn,
            *sample,
            *mul_fn,
            *add_fn,
            x.data@,
            offset.data@,
            bias_data(mask),
            weight.data@,
            bias_data(bias),
            deform_geom(x.shape@, weight.shape@, offset.shape@, stride, padding, dilation, weight_groups, offset_groups),
            r.data@,
        ),
{
    deform_conv2d_run(
        x,
        offset,
        weight,
        mask,
        bias,
        stride,
        padding,
        dilation,
        weight_groups,
        offset_groups,
        sample,
        mul_fn,
        add_fn,
        gemm_nn,
        DType::F32,
    )
}

} // verus!
