//! Gradients of two-dimensional interpolation with respect to its input.
//!
//! Every interpolation mode reads, for output row `oh`, a fixed number of
//! input rows (its vertical taps) and, for output column `ow`, a fixed
//! number of input columns (its horizontal taps), each with a weight. The
//! gradient flows back along the same taps: for every plane, output
//! position and pair of taps, in that loop order (vertical tap outer), the
//! contribution of the output gradient is added to the input position the
//! pair names. A tap may be absent (it fell outside the input); its pairs
//! add nothing.
//!
//! Where an output position samples the input and with which weights is
//! floating-point work that the caller does; the taps are what it hands in.
use vstd::prelude::*;
use crate::arith::{lemma_div_lt, lemma_div_mod_offset, lemma_offset2, lemma_mul_nonneg};
use crate::fold::{scatters_to, lemma_scatters_to_empty, lemma_scatters_to_push};
use crate::tensor::{HostTensor, lemma_numel_4};

verus! {

/// Sizes of a separable scatter: `planes` planes of `in_h x in_w` inputs
/// and `out_h x out_w` outputs, `ky` vertical taps per output row and `kx`
/// horizontal taps per output column.
#[derive(Clone, Copy)]
pub struct TapGeom {
    pub planes: usize,
    pub in_h: usize,
    pub in_w: usize,
    pub out_h: usize,
    pub out_w: usize,
    pub ky: usize,
    pub kx: usize,
}

impl TapGeom {
    /// Number of output elements.
    pub open spec fn out_count(self) -> int {
        self.planes * self.out_h * self.out_w
    }

    /// Number of input elements.
    pub open spec fn in_count(self) -> int {
        self.planes * self.in_h * self.in_w
    }

    /// Tap pairs per output element.
    pub open spec fn pairs(self) -> int {
        self.ky * self.kx
    }

    /// Number of scatter steps: one per output element and tap pair.
    pub open spec fn step_count(self) -> int {
        self.out_count() * self.pairs()
    }
}

/// Every present tap names an index below `size`.
pub open spec fn taps_within<W>(taps: Seq<Option<(usize, W)>>, size: int) -> bool {
    forall|i: int| 0 <= i < taps.len() ==> (#[trigger] taps[i] matches Option::Some(t) ==> t.0 < size)
}

/// Output row of output element `q` (planes, rows, columns in row-major order).
pub open spec fn out_row(g: TapGeom, q: int) -> int {
    (q / (g.out_w as int)) % (g.out_h as int)
}

/// Output column of output element `q`.
pub open spec fn out_col(g: TapGeom, q: int) -> int {
    q % (g.out_w as int)
}

/// Plane of output element `q`.
pub open spec fn out_plane(g: TapGeom, q: int) -> int {
    (q / (g.out_w as int)) / (g.out_h as int)
}

/// The vertical tap of scatter step `n`.
pub open spec fn step_y_tap<W>(g: TapGeom, y: Seq<Option<(usize, W)>>, n: int) -> Option<(usize, W)> {
    let q = n / g.pairs();
    let j = n % g.pairs();
    y[out_row(g, q) * g.ky + j / (g.kx as int)]
}

/// The horizontal tap of scatter step `n`.
pub open spec fn step_x_tap<W>(g: TapGeom, x: Seq<Option<(usize, W)>>, n: int) -> Option<(usize, W)> {
    let q = n / g.pairs();
    let j = n % g.pairs();
    x[out_col(g, q) * g.kx + j % (g.kx as int)]
}

/// The input position scatter step `n` adds to, if both its taps are present.
pub open spec fn step_target<W>(g: TapGeom, y: Seq<Option<(usize, W)>>, x: Seq<Option<(usize, W)>>, n: int) -> Option<int> {
    let q = n / g.pairs();
    match (step_y_tap(g, y, n), step_x_tap(g, x, n)) {
        (Option::Some(a), Option::Some(b)) => Option::Some(
            out_plane(g, q) * (g.in_h * g.in_w) + a.0 * g.in_w + b.0,
        ),
        _ => Option::None,
    }
}

/// The scatter events of the steps whose contributions are `vals`.
pub open spec fn tap_events<T, W>(
    g: TapGeom,
    y: Seq<Option<(usize, W)>>,
    x: Seq<Option<(usize, W)>>,
    vals: Seq<T>,
) -> Seq<Option<(int, T)>> {
    Seq::new(
        vals.len(),
        |n: int|
            match step_target(g, y, x, n) {
                Option::Some(l) => Option::Some((l, vals[n])),
                Option::None => Option::None,
            },
    )
}

/// `v` is what `weigh` may give for scatter step `n`: the output gradient
/// of its element, the element's row and column and the two tap weights.
pub open spec fn tap_value_ok<T, W, C: Fn(T, usize, usize, W, W) -> T>(
    weigh: C,
    g: TapGeom,
    y: Seq<Option<(usize, W)>>,
    x: Seq<Option<(usize, W)>>,
    grad: Seq<T>,
    n: int,
    v: T,
) -> bool {
    let q = n / g.pairs();
    match (step_y_tap(g, y, n), step_x_tap(g, x, n)) {
        (Option::Some(a), Option::Some(b)) => call_ensures(
            weigh,
            (grad[q], out_row(g, q) as usize, out_col(g, q) as usize, a.1, b.1),
            v,
        ),
        _ => true,
    }
}

/// `vals` are contributions of the first `vals.len()` scatter steps.
pub open spec fn tap_values_ok<T, W, C: Fn(T, usize, usize, W, W) -> T>(
    weigh: C,
    g: TapGeom,
    y: Seq<Option<(usize, W)>>,
    x: Seq<Option<(usize, W)>>,
    grad: Seq<T>,
    vals: Seq<T>,
) -> bool {
    forall|n: int| 0 <= n < vals.len() ==> #[trigger] tap_value_ok(weigh, g, y, x, grad, n, vals[n])
}

/// `out` is a result of scattering `grad` back along the taps: a zero buffer
/// of `in_count` elements to which every step with both taps present added
/// its contribution, one of the values `weigh` may give for it.
pub open spec fn scattered_along<T, W, C: Fn(T, usize, usize, W, W) -> T, A: Fn(T, T) -> T>(
    weigh: C,
    add_fn: A,
    zero: T,
    g: TapGeom,
    y: Seq<Option<(usize, W)>>,
    x: Seq<Option<(usize, W)>>,
    grad: Seq<T>,
    out: Seq<T>,
) -> bool {
    &&& out.len() == g.in_count()
    &&& exists|vals: Seq<T>|
        vals.len() == g.step_count() && #[trigger] tap_values_ok(weigh, g, y, x, grad, vals)
            && scatters_to(add_fn, Seq::new(out.len(), |i: int| zero), tap_events(g, y, x, vals), out)
}

/// The coordinates of step `q * pairs + ty * kx + tx`.
proof fn lemma_step_split(g: TapGeom, q: int, ty: int, tx: int)
    requires
        0 <= q,
        0 <= ty < g.ky,
        0 <= tx < g.kx,
    ensures
        0 <= ty * g.kx + tx < g.pairs(),
        (q * g.pairs() + ty * g.kx + tx) / g.pairs() == q,
        (q * g.pairs() + ty * g.kx + tx) % g.pairs() == ty * g.kx + tx,
        (ty * g.kx + tx) / (g.kx as int) == ty,
        (ty * g.kx + tx) % (g.kx as int) == tx,
{
    lemma_offset2(ty, tx, g.ky as int, g.kx as int);
    lemma_div_mod_offset(q, ty * g.kx + tx, g.pairs());
    lemma_div_mod_offset(ty, tx, g.kx as int);
    assert(q * g.pairs() + ty * g.kx + tx == q * g.pairs() + (ty * g.kx + tx));
}

/// Scatters the output gradient back along separable taps: a zero buffer of
/// `planes * in_h * in_w` elements to which, for every output element `q`
/// (planes, rows, columns in row-major order), every vertical tap `ty` of
/// its row and every horizontal tap `tx` of its column, in that loop order,
/// `weigh(grad[q], row, column, wy, wx)` is added with `add_fn` at
/// `plane * in_h * in_w + iy * in_w + ix`, the pair being skipped when one
/// of its taps is absent. Row `oh` owns vertical taps
/// `y_taps[oh * ky .. (oh + 1) * ky]`, column `ow` horizontal taps
/// `x_taps[ow * kx .. (ow + 1) * kx]`.
pub fn separable_scatter<T: Copy, W: Copy, C: Fn(T, usize, usize, W, W) -> T, A: Fn(T, T) -> T>(
    geo: TapGeom,
    grad: &[T],
    y_taps: &[Option<(usize, W)>],
    x_taps: &[Option<(usize, W)>],
    zero: T,
    weigh: &C,
    add_fn: &A,
) -> (r: Vec<T>)
    requires
        grad@.len() >= geo.out_count(),
        y_taps@.len() == geo.out_h * geo.ky,
        x_taps@.len() == geo.out_w * geo.kx,
        taps_within(y_taps@, geo.in_h as int),
        taps_within(x_taps@, geo.in_w as int),
        geo.in_h > 0,
        geo.in_w > 0,
        geo.in_count() <= usize::MAX,
        geo.out_count() <= usize::MAX,
        forall|gv: T, oh: usize, ow: usize, a: W, b: W| call_requires(*weigh, (gv, oh, ow, a, b)),
        forall|a: T, b: T| call_requires(*add_fn, (a, b)),
    ensures
        scattered_along(*weigh, *add_fn, zero, geo, y_taps@, x_taps@, grad@, r@),
{
    let planes = geo.planes;
    let in_h = geo.in_h;
    let in_w = geo.in_w;
    let out_h = geo.out_h;
    let out_w = geo.out_w;
    let ky = geo.ky;
    let kx = geo.kx;
    proof {
        lemma_mul_nonneg(planes as int, in_h as int);
        lemma_mul_nonneg(planes as int, out_h as int);
        lemma_mul_nonneg(planes * in_h, in_w as int);
        lemma_mul_nonneg(planes * out_h, out_w as int);
        assert(planes * in_h <= planes * in_h * in_w) by (nonlinear_arith)
            requires planes >= 0, in_h >= 0, in_w >= 1;
    }
    let in_count = planes * in_h * in_w;
    let out_count = if out_w == 0 {
        proof {
            assert(planes * out_h * out_w == 0) by (nonlinear_arith)
                requires out_w == 0;
        }
        0
    } else {
        proof {
            assert(planes * out_h <= planes * out_h * out_w) by (nonlinear_arith)
                requires planes >= 0, out_h >= 0, out_w >= 1;
        }
        planes * out_h * out_w
    };
    let mut out: Vec<T> = Vec::new();
    let mut i: usize = 0;
    while i < in_count
        invariant
            i <= in_count,
            out@ == Seq::new(i as nat, |t: int| zero),
        decreases in_count - i,
    {
        out.push(zero);
        i = i + 1;
        proof {
            assert(out@ =~= Seq::new(i as nat, |t: int| zero));
        }
    }
    let ylen = y_taps.len();
    let xlen = x_taps.len();
    let ghost init = out@;
    let ghost y = y_taps@;
    let ghost x = x_taps@;
    let ghost gs = grad@;
    let ghost mut vals: Seq<T> = Seq::empty();
    proof {
        lemma_scatters_to_empty(*add_fn, init);
        assert(tap_events(geo, y, x, vals) =~= Seq::<Option<(int, T)>>::empty());
    }
    let mut q: usize = 0;
    while q < out_count
        invariant
            q <= out_count,
            out_count == geo.out_count(),
            in_count == geo.in_count(),
            planes == geo.planes && in_h == geo.in_h && in_w == geo.in_w,
            out_h == geo.out_h && out_w == geo.out_w && ky == geo.ky && kx == geo.kx,
            y == y_taps@,
            x == x_taps@,
            gs == grad@,
            gs.len() >= out_count,
            y.len() == out_h * ky,
            x.len() == out_w * kx,
            y.len() == ylen && x.len() == xlen,
            taps_within(y, in_h as int),
            taps_within(x, in_w as int),
            init == Seq::new(in_count as nat, |t: int| zero),
            out@.len() == in_count,
            vals.len() == q * geo.pairs(),
            tap_values_ok(*weigh, geo, y, x, gs, vals),
            scatters_to(*add_fn, init, tap_events(geo, y, x, vals), out@),
            forall|gv: T, oh: usize, ow: usize, a: W, b: W| call_requires(*weigh, (gv, oh, ow, a, b)),
            forall|a: T, b: T| call_requires(*add_fn, (a, b)),
        decreases out_count - q,
    {
        proof {
            assert(out_w > 0 && out_h > 0 && planes > 0) by (nonlinear_arith)
                requires q < planes * out_h * out_w, q >= 0, planes >= 0, out_h >= 0, out_w >= 0;
            assert(planes * out_h * out_w == (planes * out_h) * out_w);
            lemma_div_lt(q as int, (planes * out_h) as int, out_w as int);
            lemma_div_lt((q / out_w) as int, planes as int, out_h as int);
        }
        let ow = q % out_w;
        let t = q / out_w;
        let oh = t % out_h;
        let p = t / out_h;
        proof {
            assert(in_h * in_w <= in_count) by (nonlinear_arith)
                requires in_count == planes * in_h * in_w, planes >= 1, in_h >= 0, in_w >= 0;
        }
        let in_hw = in_h * in_w;
        let gv = grad[q];
        let mut ty: usize = 0;
        while ty < ky
            invariant
                q < out_count,
                ty <= ky,
                out_count == geo.out_count(),
                in_count == geo.in_count(),
                planes == geo.planes && in_h == geo.in_h && in_w == geo.in_w,
                out_h == geo.out_h && out_w == geo.out_w && ky == geo.ky && kx == geo.kx,
                ow == out_col(geo, q as int),
                oh == out_row(geo, q as int),
                p == out_plane(geo, q as int),
                ow < out_w && oh < out_h && p < planes,
                in_hw == in_h * in_w,
                gs.len() >= out_count,
                gv == gs[q as int],
                y == y_taps@,
                x == x_taps@,
                gs == grad@,
                y.len() == out_h * ky,
                x.len() == out_w * kx,
                y.len() == ylen && x.len() == xlen,
                taps_within(y, in_h as int),
                taps_within(x, in_w as int),
                init == Seq::new(in_count as nat, |t: int| zero),
                out@.len() == in_count,
                vals.len() == q * geo.pairs() + ty * kx,
                tap_values_ok(*weigh, geo, y, x, gs, vals),
                scatters_to(*add_fn, init, tap_events(geo, y, x, vals), out@),
                forall|gv: T, oh: usize, ow: usize, a: W, b: W| call_requires(*weigh, (gv, oh, ow, a, b)),
                forall|a: T, b: T| call_requires(*add_fn, (a, b)),
            decreases ky - ty,
        {
            proof {
                lemma_offset2(oh as int, ty as int, out_h as int, ky as int);
            }
            let yt = y_taps[oh * ky + ty];
            let mut tx: usize = 0;
            while tx < kx
                invariant
                    q < out_count,
                    ty < ky,
                    tx <= kx,
                    out_count == geo.out_count(),
                    in_count == geo.in_count(),
                    planes == geo.planes && in_h == geo.in_h && in_w == geo.in_w,
                    out_h == geo.out_h && out_w == geo.out_w && ky == geo.ky && kx == geo.kx,
                    ow == out_col(geo, q as int),
                    oh == out_row(geo, q as int),
                    p == out_plane(geo, q as int),
                    ow < out_w && oh < out_h && p < planes,
                    in_hw == in_h * in_w,
                    gs.len() >= out_count,
                    gv == gs[q as int],
                    oh * ky + ty < y.len(),
                    yt == y[oh * ky + ty],
                    y == y_taps@,
                    x == x_taps@,
                    gs == grad@,
                    y.len() == out_h * ky,
                    x.len() == out_w * kx,
                    y.len() == ylen && x.len() == xlen,
                    taps_within(y, in_h as int),
                    taps_within(x, in_w as int),
                    init == Seq::new(in_count as nat, |t: int| zero),
                    out@.len() == in_count,
                    vals.len() == q * geo.pairs() + ty * kx + tx,
                    tap_values_ok(*weigh, geo, y, x, gs, vals),
                    scatters_to(*add_fn, init, tap_events(geo, y, x, vals), out@),
                    forall|gv: T, oh: usize, ow: usize, a: W, b: W| call_requires(*weigh, (gv, oh, ow, a, b)),
                    forall|a: T, b: T| call_requires(*add_fn, (a, b)),
                decreases kx - tx,
            {
                let ghost n = vals.len() as int;
                proof {
                    lemma_offset2(ow as int, tx as int, out_w as int, kx as int);
                    lemma_step_split(geo, q as int, ty as int, tx as int);
                    lemma_mul_nonneg(q as int, geo.pairs());
                    assert(n == q * geo.pairs() + ty * kx + tx);
                    assert(n / geo.pairs() == q);
                    assert(step_y_tap(geo, y, n) == yt);
                    assert(step_x_tap(geo, x, n) == x[ow * kx + tx]);
                }
                let xt = x_taps[ow * kx + tx];
                let ghost before = out@;
                let ghost old_vals = vals;
                match (yt, xt) {
                    (Option::Some(a), Option::Some(b)) => {
                        proof {
                            assert(y[oh * ky + ty] matches Option::Some(t) ==> t.0 < in_h);
                            assert(x[ow * kx + tx] matches Option::Some(t) ==> t.0 < in_w);
                            lemma_offset2(a.0 as int, b.0 as int, in_h as int, in_w as int);
                            lemma_offset2(p as int, a.0 * in_w + b.0, planes as int, (in_h * in_w) as int);
                            assert(planes * (in_h * in_w) == in_count) by (nonlinear_arith)
                                requires in_count == planes * in_h * in_w;
                        }
                        let v = weigh(gv, oh, ow, a.1, b.1);
                        let pos = p * in_hw + a.0 * in_w + b.0;
                        let s = add_fn(out[pos], v);
                        out.set(pos, s);
                        proof {
                            vals = vals.push(v);
                            let e = Option::Some((pos as int, v));
                            assert(step_target(geo, y, x, n) == Option::Some(pos as int));
                            assert(tap_events(geo, y, x, vals) =~= tap_events(geo, y, x, old_vals).push(e));
                            assert(out@ == before.update(pos as int, out@[pos as int]));
                            lemma_scatters_to_push(*add_fn, init, tap_events(geo, y, x, old_vals), before, e, out@);
                            assert(tap_value_ok(*weigh, geo, y, x, gs, n, v));
                        }
                    },
                    _ => {
                        proof {
                            vals = vals.push(zero);
                            assert(step_target(geo, y, x, n) == Option::<int>::None);
                            assert(tap_events(geo, y, x, vals) =~= tap_events(geo, y, x, old_vals).push(Option::None));
                            lemma_scatters_to_push(*add_fn, init, tap_events(geo, y, x, old_vals), before, Option::None, out@);
                            assert(tap_value_ok(*weigh, geo, y, x, gs, n, zero));
                        }
                    },
                }
                proof {
                    assert forall|m: int| 0 <= m < vals.len() implies #[trigger] tap_value_ok(*weigh, geo, y, x, gs, m, vals[m]) by {
                        if m < n {
                            assert(vals[m] == old_vals[m]);
                            assert(tap_value_ok(*weigh, geo, y, x, gs, m, old_vals[m]));
                        }
                    }
                }
                tx = tx + 1;
            }
            ty = ty + 1;
            proof {
                assert(q * geo.pairs() + (ty - 1) * kx + kx == q * geo.pairs() + ty * kx) by (nonlinear_arith);
            }
        }
        proof {
            assert(q * geo.pairs() + ky * kx == (q + 1) * geo.pairs()) by (nonlinear_arith)
                requires geo.pairs() == ky * kx;
        }
        q = q + 1;
    }
    proof {
        assert(vals.len() == geo.step_count());
        assert(init =~= Seq::new(out@.len(), |t: int| zero));
        assert(tap_values_ok(*weigh, geo, y_taps@, x_taps@, grad@, vals));
    }
    out
}

} // verus!

verus! {

/// One tap per output position, reading `map[o]`, with no weight: the taps
/// of nearest-neighbour interpolation.
pub open spec fn index_taps(map: Seq<usize>) -> Seq<Option<(usize, ())>> {
    Seq::new(map.len(), |i: int| Option::Some((map[i], ())))
}

/// The two taps of linear interpolation along one axis: output position `o`
/// with lower index `lo` and weight `w` (`coords[o] == (lo, w)`) reads the
/// lower tap `(lo, (w, false))` and the upper tap
/// `(min(lo + 1, size - 1), (w, true))`.
pub open spec fn linear_taps<W>(coords: Seq<(usize, W)>, size: int) -> Seq<Option<(usize, (W, bool))>> {
    Seq::new(
        coords.len() * 2,
        |i: int|
            {
                let c = coords[i / 2];
                if i % 2 == 0 {
                    Option::Some((c.0, (c.1, false)))
                } else {
                    Option::Some((if c.0 + 1 < size { (c.0 + 1) as usize } else { (size - 1) as usize }, (c.1, true)))
                }
            },
    )
}

/// `v` clamped to the indices `0 ..= size - 1`.
pub open spec fn clamp_index(v: int, size: int) -> int {
    if v < 0 {
        0
    } else if v >= size {
        size - 1
    } else {
        v
    }
}

/// The four taps of cubic interpolation along one axis: output position `o`
/// with origin `origins[o]` reads index `origin + t - 1`, clamped to the
/// input, with weight `weights[4 * o + t]`, for `t` in `0 .. 4`.
pub open spec fn cubic_taps<W>(origins: Seq<isize>, weights: Seq<W>, size: int) -> Seq<Option<(usize, W)>> {
    Seq::new(
        origins.len() * 4,
        |i: int| Option::Some((clamp_index(origins[i / 4] + i % 4 - 1, size) as usize, weights[i])),
    )
}

/// The six taps of the Lanczos-3 window along one axis: output position `o`
/// with origin `origins[o]` reads index `origin + t - 2` with weight
/// `weights[6 * o + t]`, for `t` in `0 .. 6`; a tap outside the input is
/// absent.
pub open spec fn window_taps<W>(origins: Seq<isize>, weights: Seq<W>, size: int) -> Seq<Option<(usize, W)>> {
    Seq::new(
        origins.len() * 6,
        |i: int|
            {
                let v = origins[i / 6] + i % 6 - 2;
                if 0 <= v < size {
                    Option::Some((v as usize, weights[i]))
                } else {
                    Option::None
                }
            },
    )
}

/// The nearest-neighbour taps of an index map.
pub fn index_axis_taps(map: &[usize]) -> (r: Vec<Option<(usize, ())>>)
    ensures
        r@ == index_taps(map@),
{
    let mut r: Vec<Option<(usize, ())>> = Vec::new();
    let mut i: usize = 0;
    while i < map.len()
        invariant
            i <= map@.len(),
            r@ =~= index_taps(map@).take(i as int),
        decreases map@.len() - i,
    {
        r.push(Option::Some((map[i], ())));
        i = i + 1;
        proof {
            assert(r@ =~= index_taps(map@).take(i as int));
        }
    }
    proof {
        assert(index_taps(map@).take(map@.len() as int) =~= index_taps(map@));
    }
    r
}

/// The linear-interpolation taps of per-position `(lower index, weight)` pairs.
pub fn linear_axis_taps<W: Copy>(coords: &[(usize, W)], size: usize) -> (r: Vec<Option<(usize, (W, bool))>>)
    requires
        size > 0,
        coords@.len() * 2 <= usize::MAX,
        forall|i: int| 0 <= i < coords@.len() ==> (#[trigger] coords@[i]).0 < size,
    ensures
        r@ == linear_taps(coords@, size as int),
{
    let ghost spec_taps = linear_taps(coords@, size as int);
    let mut r: Vec<Option<(usize, (W, bool))>> = Vec::new();
    let mut o: usize = 0;
    while o < coords.len()
        invariant
            o <= coords@.len(),
            size > 0,
            coords@.len() * 2 <= usize::MAX,
            forall|i: int| 0 <= i < coords@.len() ==> (#[trigger] coords@[i]).0 < size,
            spec_taps == linear_taps(coords@, size as int),
            r@ =~= spec_taps.take(2 * o),
        decreases coords@.len() - o,
    {
        let c = coords[o];
        let hi = if c.0 + 1 < size { c.0 + 1 } else { size - 1 };
        r.push(Option::Some((c.0, (c.1, false))));
        r.push(Option::Some((hi, (c.1, true))));
        proof {
            lemma_div_mod_offset(o as int, 0, 2);
            lemma_div_mod_offset(o as int, 1, 2);
            assert(spec_taps[2 * o] == Option::Some((c.0, (c.1, false))));
            assert(spec_taps[2 * o + 1] == Option::Some((hi, (c.1, true))));
            assert(r@ =~= spec_taps.take(2 * o + 2));
        }
        o = o + 1;
    }
    proof {
        assert(spec_taps.take((2 * coords@.len()) as int) =~= spec_taps);
    }
    r
}

/// The cubic-interpolation taps of per-position origins, four weights each.
pub fn cubic_axis_taps<W: Copy>(origins: &[isize], weights: &[W], size: usize) -> (r: Vec<Option<(usize, W)>>)
    requires
        size > 0,
        weights@.len() == origins@.len() * 4,
    ensures
        r@ == cubic_taps(origins@, weights@, size as int),
{
    let ghost spec_taps = cubic_taps(origins@, weights@, size as int);
    let _wlen = weights.len();
    let mut r: Vec<Option<(usize, W)>> = Vec::new();
    let mut o: usize = 0;
    while o < origins.len()
        invariant
            o <= origins@.len(),
            size > 0,
            weights@.len() == origins@.len() * 4,
            weights@.len() <= usize::MAX,
            spec_taps == cubic_taps(origins@, weights@, size as int),
            r@ =~= spec_taps.take(4 * o),
        decreases origins@.len() - o,
    {
        let origin = origins[o] as i128;
        let mut t: usize = 0;
        while t < 4
            invariant
                o < origins@.len(),
                t <= 4,
                size > 0,
                origin == origins@[o as int],
                weights@.len() == origins@.len() * 4,
                weights@.len() <= usize::MAX,
                spec_taps == cubic_taps(origins@, weights@, size as int),
                r@ =~= spec_taps.take(4 * o + t),
            decreases 4 - t,
        {
            let v = origin + (t as i128) - 1;
            let c: usize = if v < 0 {
                0
            } else if v >= size as i128 {
                size - 1
            } else {
                v as usize
            };
            proof {
                lemma_div_mod_offset(o as int, t as int, 4);
                assert(c == clamp_index(origins@[o as int] + t - 1, size as int));
                assert(spec_taps[4 * o + t] == Option::Some((c, weights@[4 * o + t])));
            }
            r.push(Option::Some((c, weights[4 * o + t])));
            t = t + 1;
            proof {
                assert(r@ =~= spec_taps.take(4 * o + t));
            }
        }
        o = o + 1;
    }
    proof {
        assert(spec_taps.take((4 * origins@.len()) as int) =~= spec_taps);
    }
    r
}

/// The Lanczos-3 taps of per-position origins, six weights each; taps that
/// fall outside `0 .. input_size` are absent.
pub fn axis_taps<W: Copy>(origins: &[isize], weights: &[W], input_size: usize) -> (r: Vec<Option<(usize, W)>>)
    requires
        weights@.len() == origins@.len() * 6,
    ensures
        r@ == window_taps(origins@, weights@, input_size as int),
{
    let ghost spec_taps = window_taps(origins@, weights@, input_size as int);
    let _wlen = weights.len();
    let mut r: Vec<Option<(usize, W)>> = Vec::new();
    let mut o: usize = 0;
    while o < origins.len()
        invariant
            o <= origins@.len(),
            weights@.len() == origins@.len() * 6,
            weights@.len() <= usize::MAX,
            spec_taps == window_taps(origins@, weights@, input_size as int),
            r@ =~= spec_taps.take(6 * o),
        decreases origins@.len() - o,
    {
        let origin = origins[o] as i128;
        let mut t: usize = 0;
        while t < 6
            invariant
                o < origins@.len(),
                t <= 6,
                origin == origins@[o as int],
                weights@.len() == origins@.len() * 6,
                weights@.len() <= usize::MAX,
                spec_taps == window_taps(origins@, weights@, input_size as int),
                r@ =~= spec_taps.take(6 * o + t),
            decreases 6 - t,
        {
            let v = origin + (t as i128) - 2;
            proof {
                lemma_div_mod_offset(o as int, t as int, 6);
            }
            if v < 0 || v >= input_size as i128 {
                proof {
                    assert(spec_taps[6 * o + t] == Option::<(usize, W)>::None);
                }
                r.push(Option::None);
            } else {
                proof {
                    assert(spec_taps[6 * o + t] == Option::Some((v as usize, weights@[6 * o + t])));
                }
                r.push(Option::Some((v as usize, weights[6 * o + t])));
            }
            t = t + 1;
            proof {
                assert(r@ =~= spec_taps.take(6 * o + t));
            }
        }
        o = o + 1;
    }
    proof {
        assert(spec_taps.take((6 * origins@.len()) as int) =~= spec_taps);
    }
    r
}

} // verus!

verus! {

/// The scatter sizes of the gradient of an interpolation of an
/// `[n, c, h, w]` input to `output_size`, with `ky` vertical and `kx`
/// horizontal taps.
pub open spec fn interp_geom(xs: Seq<usize>, output_size: [usize; 2], ky: usize, kx: usize) -> TapGeom {
    TapGeom {
        planes: (xs[0] * xs[1]) as usize,
        in_h: xs[2],
        in_w: xs[3],
        out_h: output_size[0],
        out_w: output_size[1],
        ky,
        kx,
    }
}

/// What every interpolation gradient asks of its operands: a
/// four-dimensional input with a non-empty plane, and an output gradient
/// holding at least the `n * c * out_h * out_w` elements it reads.
pub open spec fn interp_backward_ok<T>(x: HostTensor<T>, grad: Seq<T>, output_size: [usize; 2]) -> bool {
    &&& x.wf()
    &&& x.shape@.len() == 4
    &&& x.shape@[2] > 0
    &&& x.shape@[3] > 0
    &&& grad.len() >= x.shape@[0] * x.shape@[1] * output_size[0] * output_size[1]
}

/// Scatter sizes of an interpolation gradient, with the facts that bound them.
fn backward_geom<T>(x: &HostTensor<T>, grad: &HostTensor<T>, output_size: [usize; 2], ky: usize, kx: usize) -> (g: TapGeom)
    requires
        interp_backward_ok(*x, grad.data@, output_size),
    ensures
        g == interp_geom(x.shape@, output_size, ky, kx),
        g.planes == x.shape@[0] * x.shape@[1],
        g.in_count() == x.data@.len(),
        g.in_count() <= usize::MAX,
        g.out_count() <= grad.data@.len(),
        g.out_count() <= usize::MAX,
{
    proof {
        lemma_numel_4(x.shape@);
    }
    let _xlen = x.data.len();
    let _glen = grad.data.len();
    let b = x.shape[0];
    let c = x.shape[1];
    let h = x.shape[2];
    let w = x.shape[3];
    proof {
        assert(b * c <= b * c * h * w) by (nonlinear_arith)
            requires b >= 0, c >= 0, h >= 1, w >= 1;
        assert((b * c) * h * w == b * c * h * w) by (nonlinear_arith);
        assert((b * c) * output_size[0] * output_size[1] == b * c * output_size[0] * output_size[1]) by (nonlinear_arith);
    }
    TapGeom { planes: b * c, in_h: h, in_w: w, out_h: output_size[0], out_w: output_size[1], ky, kx }
}

/// The input gradient of nearest-neighbour interpolation as a tensor: the
/// scatter buffer under the input's shape and element kind.
fn gradient_tensor<T>(x: &HostTensor<T>, data: Vec<T>) -> (r: HostTensor<T>)
    requires
        x.wf(),
        x.shape@.len() == 4,
        data@.len() == x.data@.len(),
    ensures
        r.shape@ == x.shape@,
        r.data@ == data@,
        r.dtype == x.dtype,
        r.wf(),
{
    let shape = vec![x.shape[0], x.shape[1], x.shape[2], x.shape[3]];
    proof {
        assert(shape@ =~= x.shape@);
    }
    HostTensor { shape, data, dtype: x.dtype }
}

/// The scatter events of nearest-neighbour interpolation: output element
/// `q` (plane `p`, row `oh`, column `ow`) adds its gradient to input
/// element `(p, y_map[oh], x_map[ow])`.
pub open spec fn nearest_events<T>(g: TapGeom, y_map: Seq<usize>, x_map: Seq<usize>, grad: Seq<T>) -> Seq<Option<(int, T)>> {
    Seq::new(
        g.out_count() as nat,
        |q: int|
            Option::Some((
                out_plane(g, q) * (g.in_h * g.in_w) + y_map[out_row(g, q)] * g.in_w + x_map[out_col(g, q)],
                grad[q],
            )),
    )
}

/// Gradient of nearest-neighbour interpolation of `x` (`[n, c, h, w]`) to
/// `output_size`, where output row `oh` reads input row `y_map[oh]` and
/// output column `ow` input column `x_map[ow]`: a zero tensor of the input's
/// shape to which every element of `grad` (`[n, c, out_h, out_w]`), in
/// order, is added with `add_fn` at the input element it was read from.
pub fn interpolate_nearest_backward_impl<T: Copy, A: Fn(T, T) -> T>(
    x: &HostTensor<T>,
    grad: &HostTensor<T>,
    output_size: [usize; 2],
    y_map: &[usize],
    x_map: &[usize],
    zero: T,
    add_fn: &A,
) -> (r: HostTensor<T>)
    requires
        interp_backward_ok(*x, grad.data@, output_size),
        y_map@.len() == output_size[0],
        x_map@.len() == output_size[1],
        forall|i: int| 0 <= i < y_map@.len() ==> #[trigger] y_map@[i] < x.shape@[2],
        forall|i: int| 0 <= i < x_map@.len() ==> #[trigger] x_map@[i] < x.shape@[3],
        forall|a: T, b: T| call_requires(*add_fn, (a, b)),
    ensures
        r.shape@ == x.shape@,
        r.dtype == x.dtype,
        r.wf(),
        scatters_to(
            *add_fn,
            Seq::new(r.data@.len(), |i: int| zero),
            nearest_events(interp_geom(x.shape@, output_size, 1, 1), y_map@, x_map@, grad.data@),
            r.data@,
        ),
{
    let geo = backward_geom(x, grad, output_size, 1, 1);
    let y_taps = index_axis_taps(y_map);
    let x_taps = index_axis_taps(x_map);
    let pass = |gv: T, oh: usize, ow: usize, wy: (), wx: ()| -> (v: T)
        ensures
            v == gv,
    { gv };
    proof {
        assert(geo.ky == 1 && geo.kx == 1);
        assert(geo.out_h * geo.ky == geo.out_h && geo.out_w * geo.kx == geo.out_w && geo.pairs() == 1) by (nonlinear_arith)
            requires geo.ky == 1, geo.kx == 1;
        assert forall|i: int| 0 <= i < y_taps@.len() implies (#[trigger] y_taps@[i] matches Option::Some(t) ==> t.0 < geo.in_h) by {
            assert(y_map@[i] < x.shape@[2]);
        }
        assert forall|i: int| 0 <= i < x_taps@.len() implies (#[trigger] x_taps@[i] matches Option::Some(t) ==> t.0 < geo.in_w) by {
            assert(x_map@[i] < x.shape@[3]);
        }
    }
    let data = separable_scatter(geo, grad.data.as_slice(), y_taps.as_slice(), x_taps.as_slice(), zero, &pass, add_fn);
    proof {
        let vals = choose|vals: Seq<T>|
            vals.len() == geo.step_count() && #[trigger] tap_values_ok(pass, geo, y_taps@, x_taps@, grad.data@, vals)
                && scatters_to(*add_fn, Seq::new(data@.len(), |i: int| zero), tap_events(geo, y_taps@, x_taps@, vals), data@);
        assert(geo.step_count() == geo.out_count());
        assert forall|n: int| 0 <= n < vals.len() implies #[trigger] tap_events(geo, y_taps@, x_taps@, vals)[n]
            == nearest_events(geo, y_map@, x_map@, grad.data@)[n] by {
            lemma_div_mod_offset(n, 0, 1);
            assert(n / 1 == n && n % 1 == 0);
            assert(geo.out_w > 0 && geo.out_h > 0) by (nonlinear_arith)
                requires n < geo.planes * geo.out_h * geo.out_w, n >= 0, geo.planes >= 0, geo.out_h >= 0, geo.out_w >= 0;
            assert(geo.planes * geo.out_h * geo.out_w == (geo.planes * geo.out_h) * geo.out_w);
            assert(0 <= out_row(geo, n) < geo.out_h) by {
                lemma_div_lt(n, geo.planes * geo.out_h, geo.out_w as int);
                lemma_div_lt(n / (geo.out_w as int), geo.planes as int, geo.out_h as int);
            }
            assert(0 <= out_col(geo, n) < geo.out_w) by {
                lemma_div_lt(n, geo.planes * geo.out_h, geo.out_w as int);
            }
            assert(tap_value_ok(pass, geo, y_taps@, x_taps@, grad.data@, n, vals[n]));
            assert(vals[n] == grad.data@[n]);
        }
        assert(tap_events(geo, y_taps@, x_taps@, vals) =~= nearest_events(geo, y_map@, x_map@, grad.data@));
    }
    gradient_tensor(x, data)
}

} // verus!

verus! {

/// Gradient of bilinear interpolation of `x` (`[n, c, h, w]`) to
/// `output_size`, where output row `oh` lies between input rows `lo` and
/// `min(lo + 1, h - 1)` at weight `wy` (`y_coords[oh] == (lo, wy)`), and
/// likewise for columns: the scatter of `grad` along the linear taps of both
/// axes, each tap pair in the order (low, low), (low, high), (high, low),
/// (high, high). `weigh(g, oh, ow, (wy, y_high), (wx, x_high))` gives the
/// share of the gradient `g` the pair receives.
pub fn interpolate_bilinear_backward_impl<
    T: Copy,
    W: Copy,
    C: Fn(T, usize, usize, (W, bool), (W, bool)) -> T,
    A: Fn(T, T) -> T,
>(
    x: &HostTensor<T>,
    grad: &HostTensor<T>,
    output_size: [usize; 2],
    y_coords: &[(usize, W)],
    x_coords: &[(usize, W)],
    zero: T,
    weigh: &C,
    add_fn: &A,
) -> (r: HostTensor<T>)
    requires
        interp_backward_ok(*x, grad.data@, output_size),
        y_coords@.len() == output_size[0],
        x_coords@.len() == output_size[1],
        y_coords@.len() * 2 <= usize::MAX,
        x_coords@.len() * 2 <= usize::MAX,
        forall|i: int| 0 <= i < y_coords@.len() ==> (#[trigger] y_coords@[i]).0 < x.shape@[2],
        forall|i: int| 0 <= i < x_coords@.len() ==> (#[trigger] x_coords@[i]).0 < x.shape@[3],
        forall|gv: T, oh: usize, ow: usize, a: (W, bool), b: (W, bool)| call_requires(*weigh, (gv, oh, ow, a, b)),
        forall|a: T, b: T| call_requires(*add_fn, (a, b)),
    ensures
        r.shape@ == x.shape@,
        r.dtype == x.dtype,
        r.wf(),
        scattered_along(
            *weigh,
            *add_fn,
            zero,
            interp_geom(x.shape@, output_size, 2, 2),
            linear_taps(y_coords@, x.shape@[2] as int),
            linear_taps(x_coords@, x.shape@[3] as int),
            grad.data@,
            r.data@,
        ),
{
    let geo = backward_geom(x, grad, output_size, 2, 2);
    let y_taps = linear_axis_taps(y_coords, geo.in_h);
    let x_taps = linear_axis_taps(x_coords, geo.in_w);
    proof {
        assert forall|i: int| 0 <= i < y_taps@.len() implies (#[trigger] y_taps@[i] matches Option::Some(t) ==> t.0 < geo.in_h) by {
            assert(y_coords@[i / 2].0 < geo.in_h) by {
                lemma_div_lt(i, y_coords@.len() as int, 2);
            }
        }
        assert forall|i: int| 0 <= i < x_taps@.len() implies (#[trigger] x_taps@[i] matches Option::Some(t) ==> t.0 < geo.in_w) by {
            assert(x_coords@[i / 2].0 < geo.in_w) by {
                lemma_div_lt(i, x_coords@.len() as int, 2);
            }
        }
    }
    let data = separable_scatter(geo, grad.data.as_slice(), y_taps.as_slice(), x_taps.as_slice(), zero, weigh, add_fn);
    gradient_tensor(x, data)
}

/// Gradient of bicubic interpolation of `x` (`[n, c, h, w]`) to
/// `output_size`, where output row `oh` has origin `y_origins[oh]` and reads
/// the four rows `origin - 1 ..= origin + 2`, each clamped to the input, with
/// weights `y_weights[4 * oh ..]` (likewise for columns): the scatter of
/// `grad` along the cubic taps of both axes. `weigh(g, oh, ow, wy, wx)`
/// gives the share of the gradient `g` a tap pair receives.
pub fn interpolate_bicubic_backward_impl<T: Copy, W: Copy, C: Fn(T, usize, usize, W, W) -> T, A: Fn(T, T) -> T>(
    x: &HostTensor<T>,
    grad: &HostTensor<T>,
    output_size: [usize; 2],
    y_origins: &[isize],
    y_weights: &[W],
    x_origins: &[isize],
    x_weights: &[W],
    zero: T,
    weigh: &C,
    add_fn: &A,
) -> (r: HostTensor<T>)
    requires
        interp_backward_ok(*x, grad.data@, output_size),
        y_origins@.len() == output_size[0],
        x_origins@.len() == output_size[1],
        y_weights@.len() == y_origins@.len() * 4,
        x_weights@.len() == x_origins@.len() * 4,
        forall|gv: T, oh: usize, ow: usize, a: W, b: W| call_requires(*weigh, (gv, oh, ow, a, b)),
        forall|a: T, b: T| call_requires(*add_fn, (a, b)),
    ensures
        r.shape@ == x.shape@,
        r.dtype == x.dtype,
        r.wf(),
        scattered_along(
            *weigh,
            *add_fn,
            zero,
            interp_geom(x.shape@, output_size, 4, 4),
            cubic_taps(y_origins@, y_weights@, x.shape@[2] as int),
            cubic_taps(x_origins@, x_weights@, x.shape@[3] as int),
            grad.data@,
            r.data@,
        ),
{
    let geo = backward_geom(x, grad, output_size, 4, 4);
    let y_taps = cubic_axis_taps(y_origins, y_weights, geo.in_h);
    let x_taps = cubic_axis_taps(x_origins, x_weights, geo.in_w);
    let data = separable_scatter(geo, grad.data.as_slice(), y_taps.as_slice(), x_taps.as_slice(), zero, weigh, add_fn);
    gradient_tensor(x, data)
}

/// Gradient of Lanczos-3 interpolation of `x` (`[n, c, h, w]`) to
/// `output_size`, where output row `oh` has origin `y_origins[oh]` and reads
/// the rows `origin - 2 ..= origin + 3` that lie inside the input, with
/// weights `y_weights[6 * oh ..]` (likewise for columns): the scatter of
/// `grad` along the window taps of both axes, absent taps adding nothing.
/// `weigh(g, oh, ow, wy, wx)` gives the share of the gradient `g` a tap pair
/// receives (the window's normalisation is the caller's).
pub fn interpolate_lanczos3_backward_impl<T: Copy, W: Copy, C: Fn(T, usize, usize, W, W) -> T, A: Fn(T, T) -> T>(
    x: &HostTensor<T>,
    grad: &HostTensor<T>,
    output_size: [usize; 2],
    y_origins: &[isize],
    y_weights: &[W],
    x_origins: &[isize],
    x_weights: &[W],
    zero: T,
    weigh: &C,
    add_fn: &A,
) -> (r: HostTensor<T>)
    requires
        interp_backward_ok(*x, grad.data@, output_size),
        y_origins@.len() == output_size[0],
        x_origins@.len() == output_size[1],
        y_weights@.len() == y_origins@.len() * 6,
        x_weights@.len() == x_origins@.len() * 6,
        forall|gv: T, oh: usize, ow: usize, a: W, b: W| call_requires(*weigh, (gv, oh, ow, a, b)),
        forall|a: T, b: T| call_requires(*add_fn, (a, b)),
    ensures
        r.shape@ == x.shape@,
        r.dtype == x.dtype,
        r.wf(),
        scattered_along(
            *weigh,
            *add_fn,
            zero,
            interp_geom(x.shape@, output_size, 6, 6),
            window_taps(y_origins@, y_weights@, x.shape@[2] as int),
            window_taps(x_origins@, x_weights@, x.shape@[3] as int),
            grad.data@,
            r.data@,
        ),
{
    let geo = backward_geom(x, grad, output_size, 6, 6);
    let y_taps = axis_taps(y_origins, y_weights, geo.in_h);
    let x_taps = axis_taps(x_origins, x_weights, geo.in_w);
    let data = separable_scatter(geo, grad.data.as_slice(), y_taps.as_slice(), x_taps.as_slice(), zero, weigh, add_fn);
    gradient_tensor(x, data)
}

} // verus!
