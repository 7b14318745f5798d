//! Bicubic grid sampling: every output position reads a four-by-four
//! neighbourhood of the input, rows and columns chosen by the sampling grid.
//!
//! Where a grid point falls, which rows and columns its taps read (or that a
//! tap lies outside the input) and the cubic weights are floating-point work
//! that the caller does; this module gathers the taps. For output element
//! `(n, c, p)`, each of the four tap rows accumulates, column tap by column
//! tap, `value * wx` (an absent tap reads `zero`), and the four row sums
//! are accumulated with their `wy`; the caller's `finish` turns the sum into
//! the output element.
use vstd::prelude::*;
use crate::arith::{lemma_div_lt, lemma_offset2, lemma_mul_nonneg};
use crate::fold::{macs_to, mac_step, lemma_macs_to_empty, lemma_macs_to_push};
use crate::tensor::{HostTensor, lemma_numel_4};

verus! {

/// The taps of one output position: four input rows and four input columns
/// (each present or absent) and their weights `(rows, cols, wy, wx)`.
pub type CubicTap<F> = ([Option<usize>; 4], [Option<usize>; 4], [F; 4], [F; 4]);

/// The rows and columns of a tap all lie inside an `h x w` plane.
pub open spec fn tap_inside<F>(tap: CubicTap<F>, h: int, w: int) -> bool {
    &&& forall|k: int| 0 <= k < 4 ==> (#[trigger] tap.0@[k] matches Option::Some(y) ==> y < h)
    &&& forall|k: int| 0 <= k < 4 ==> (#[trigger] tap.1@[k] matches Option::Some(x) ==> x < w)
}

/// Value `k` (row tap `k / 4`, column tap `k % 4`) of a tap set on the
/// plane starting at row `base` of `input`: what `read` gives for the input
/// element when both taps are present, `zero` otherwise.
pub open spec fn tap_value_ok<T, F, R: Fn(T) -> F>(
    read: R,
    zero: F,
    input: Seq<T>,
    base: int,
    width: int,
    tap: CubicTap<F>,
    k: int,
    v: F,
) -> bool {
    match (tap.0@[k / 4], tap.1@[k % 4]) {
        (Option::Some(y), Option::Some(x)) => call_ensures(read, (input[(base + y) * width + x],), v),
        _ => v == zero,
    }
}

/// The first `n` accumulation steps of row `ky`: its values with the column weights.
pub open spec fn row_steps<F>(vals: Seq<F>, wx: [F; 4], ky: int, n: int) -> Seq<Option<(F, F)>> {
    Seq::new(n as nat, |j: int| Option::Some((vals[ky * 4 + j], wx@[j])))
}

/// The accumulation steps over the row sums: each with its row weight.
pub open spec fn sum_steps<F>(rows: Seq<F>, wy: [F; 4]) -> Seq<Option<(F, F)>> {
    Seq::new(rows.len(), |ky: int| Option::Some((rows[ky], wy@[ky])))
}

/// `vals`, `rows` and `sum` are the sixteen values, the four row sums and
/// the total of one bicubic sample.
pub open spec fn cubic_parts<T, F, R: Fn(T) -> F, M: Fn(F, F, F) -> F>(
    read: R,
    mac: M,
    zero: F,
    input: Seq<T>,
    base: int,
    width: int,
    tap: CubicTap<F>,
    vals: Seq<F>,
    rows: Seq<F>,
    sum: F,
) -> bool {
    &&& vals.len() == 16
    &&& rows.len() == 4
    &&& forall|k: int| 0 <= k < 16 ==> #[trigger] tap_value_ok(read, zero, input, base, width, tap, k, vals[k])
    &&& forall|ky: int| 0 <= ky < 4 ==> macs_to(mac, zero, row_steps(vals, tap.3, ky, 4), #[trigger] rows[ky])
    &&& macs_to(mac, zero, sum_steps(rows, tap.2), sum)
}

/// `out` is a bicubic sample of the plane starting at row `base`, for
/// output position `q`: `finish` of a total its taps can accumulate.
pub open spec fn cubic_sample_ok<T, F, R: Fn(T) -> F, M: Fn(F, F, F) -> F, Z: Fn(F, usize) -> T>(
    read: R,
    mac: M,
    finish: Z,
    zero: F,
    input: Seq<T>,
    base: int,
    width: int,
    tap: CubicTap<F>,
    q: usize,
    out: T,
) -> bool {
    exists|vals: Seq<F>, rows: Seq<F>, sum: F|
        #[trigger] cubic_parts(read, mac, zero, input, base, width, tap, vals, rows, sum) && call_ensures(
            finish,
            (sum, q),
            out,
        )
}

/// One bicubic sample of the plane whose rows start at `base`.
fn sample_one<T: Copy, F: Copy, R: Fn(T) -> F, M: Fn(F, F, F) -> F, Z: Fn(F, usize) -> T>(
    input: &[T],
    base: usize,
    height: usize,
    width: usize,
    tap: &CubicTap<F>,
    q: usize,
    zero: F,
    read: &R,
    mac: &M,
    finish: &Z,
) -> (out: T)
    requires
        (base + height) * width <= input@.len(),
        tap_inside(*tap, height as int, width as int),
        forall|t: T| call_requires(*read, (t,)),
        forall|a: F, b: F, c: F| call_requires(*mac, (a, b, c)),
        forall|s: F, i: usize| call_requires(*finish, (s, i)),
    ensures
        cubic_sample_ok(*read, *mac, *finish, zero, input@, base as int, width as int, *tap, q, out),
{
    let ilen = input.len();
    let ghost mut vals: Seq<F> = Seq::empty();
    let ghost mut rows: Seq<F> = Seq::empty();
    let mut sum = zero;
    proof {
        lemma_macs_to_empty(*mac, zero);
        assert(sum_steps(rows, tap.2) =~= Seq::<Option<(F, F)>>::empty());
    }
    let mut ky: usize = 0;
    while ky < 4
        invariant
            ky <= 4,
            (base + height) * width <= input@.len(),
            input@.len() == ilen,
            tap_inside(*tap, height as int, width as int),
            forall|t: T| call_requires(*read, (t,)),
            forall|a: F, b: F, c: F| call_requires(*mac, (a, b, c)),
            vals.len() == ky * 4,
            rows.len() == ky,
            forall|k: int| 0 <= k < vals.len() ==> #[trigger] tap_value_ok(*read, zero, input@, base as int, width as int, *tap, k, vals[k]),
            forall|r: int| 0 <= r < ky ==> macs_to(*mac, zero, row_steps(vals, tap.3, r, 4), #[trigger] rows[r]),
            macs_to(*mac, zero, sum_steps(rows, tap.2), sum),
        decreases 4 - ky,
    {
        let mut row = zero;
        let ghost start = vals;
        proof {
            lemma_macs_to_empty(*mac, zero);
            assert(row_steps(vals, tap.3, ky as int, 0) =~= Seq::<Option<(F, F)>>::empty());
        }
        let mut kx: usize = 0;
        while kx < 4
            invariant
                ky < 4,
                kx <= 4,
                (base + height) * width <= input@.len(),
                input@.len() == ilen,
                tap_inside(*tap, height as int, width as int),
                forall|t: T| call_requires(*read, (t,)),
                forall|a: F, b: F, c: F| call_requires(*mac, (a, b, c)),
                vals.len() == ky * 4 + kx,
                start.len() == ky * 4,
                vals.take(ky * 4) == start,
                forall|k: int| 0 <= k < vals.len() ==> #[trigger] tap_value_ok(*read, zero, input@, base as int, width as int, *tap, k, vals[k]),
                macs_to(*mac, zero, row_steps(vals, tap.3, ky as int, kx as int), row),
            decreases 4 - kx,
        {
            let ghost k = (ky * 4 + kx) as int;
            proof {
                assert(k / 4 == ky && k % 4 == kx) by {
                    crate::arith::lemma_div_mod_offset(ky as int, kx as int, 4);
                }
            }
            let v = match (tap.0[ky], tap.1[kx]) {
                (Option::Some(y), Option::Some(x)) => {
                    proof {
                        assert(tap.0@[ky as int] matches Option::Some(yy) ==> yy < height);
                        assert(tap.1@[kx as int] matches Option::Some(xx) ==> xx < width);
                        assert(base + height <= (base + height) * width) by (nonlinear_arith)
                            requires width >= 1, base >= 0, height >= 0;
                        lemma_offset2((base + y) as int, x as int, (base + height) as int, width as int);
                        assert(0 <= (base + y) * width <= (base + y) * width + x < ilen);
                    }
                    read(input[(base + y) * width + x])
                },
                _ => zero,
            };
            let ghost old_vals = vals;
            let next = mac(row, v, tap.3[kx]);
            proof {
                vals = vals.push(v);
                assert(tap_value_ok(*read, zero, input@, base as int, width as int, *tap, k, v));
                assert forall|m: int| 0 <= m < vals.len() implies #[trigger] tap_value_ok(*read, zero, input@, base as int, width as int, *tap, m, vals[m]) by {
                    if m < k {
                        assert(vals[m] == old_vals[m]);
                        assert(tap_value_ok(*read, zero, input@, base as int, width as int, *tap, m, old_vals[m]));
                    }
                }
                assert(row_steps(old_vals, tap.3, ky as int, kx as int) =~= row_steps(vals, tap.3, ky as int, kx as int));
                lemma_macs_to_push(*mac, zero, row_steps(vals, tap.3, ky as int, kx as int), row, Option::Some((v, tap.3@[kx as int])), next);
                assert(row_steps(vals, tap.3, ky as int, kx as int).push(Option::Some((v, tap.3@[kx as int])))
                    =~= row_steps(vals, tap.3, ky as int, kx + 1));
                assert(vals.take(ky * 4) =~= start);
            }
            row = next;
            kx = kx + 1;
        }
        let ghost old_rows = rows;
        let next_sum = mac(sum, row, tap.2[ky]);
        proof {
            rows = rows.push(row);
            assert forall|r: int| 0 <= r < ky + 1 implies macs_to(*mac, zero, row_steps(vals, tap.3, r, 4), #[trigger] rows[r]) by {
                if r < ky {
                    assert(rows[r] == old_rows[r]);
                    assert(macs_to(*mac, zero, row_steps(start, tap.3, r, 4), old_rows[r]));
                    assert forall|j: int| 0 <= j < 4 implies #[trigger] row_steps(start, tap.3, r, 4)[j]
                        == row_steps(vals, tap.3, r, 4)[j] by {
                        assert(r * 4 + j < ky * 4);
                        assert(vals.take(ky * 4)[r * 4 + j] == vals[r * 4 + j]);
                    }
                    assert(row_steps(start, tap.3, r, 4) =~= row_steps(vals, tap.3, r, 4));
                }
            }
            assert(sum_steps(old_rows, tap.2) =~= sum_steps(rows, tap.2).take(ky as int));
            lemma_macs_to_push(*mac, zero, sum_steps(old_rows, tap.2), sum, Option::Some((row, tap.2@[ky as int])), next_sum);
            assert(sum_steps(old_rows, tap.2).push(Option::Some((row, tap.2@[ky as int]))) =~= sum_steps(rows, tap.2));
        }
        sum = next_sum;
        ky = ky + 1;
    }
    let out = finish(sum, q);
    proof {
        assert(cubic_parts(*read, *mac, zero, input@, base as int, width as int, *tap, vals, rows, sum));
    }
    out
}


/// Which plane (`n * channels + c`) and which grid point (`n * positions + p`)
/// output element `o` of a `[batch, channels, positions]` output belongs to.
pub open spec fn out_plane_of(o: int, positions: int) -> int {
    o / positions
}

pub open spec fn grid_point_of(o: int, channels: int, positions: int) -> int {
    (o / positions) / channels * positions + o % positions
}

/// Bicubic grid sampling of `input` (`[batch, channels, height, width]`) at
/// `out_h * out_w` grid points per sample, `taps[n * out_h * out_w + p]`
/// being the taps of point `p` of sample `n`: output element `(n, c, p)` of
/// the `[batch, channels, out_h, out_w]` result is the bicubic sample of
/// plane `(n, c)` at those taps, finished with `finish(total, grid point)`.
pub fn sample_taps<T: Copy, F: Copy, R: Fn(T) -> F, M: Fn(F, F, F) -> F, Z: Fn(F, usize) -> T>(
    input: &HostTensor<T>,
    out_h: usize,
    out_w: usize,
    taps: &[CubicTap<F>],
    zero: F,
    read: &R,
    mac: &M,
    finish: &Z,
) -> (r: HostTensor<T>)
    requires
        input.wf(),
        input.shape@.len() == 4,
        input.shape@[2] > 0,
        input.shape@[3] > 0,
        taps@.len() == input.shape@[0] * (out_h * out_w),
        forall|i: int| 0 <= i < taps@.len() ==> tap_inside(#[trigger] taps@[i], input.shape@[2] as int, input.shape@[3] as int),
        input.shape@[0] * input.shape@[1] * (out_h * out_w) <= usize::MAX,
        forall|t: T| call_requires(*read, (t,)),
        forall|a: F, b: F, c: F| call_requires(*mac, (a, b, c)),
        forall|s: F, i: usize| call_requires(*finish, (s, i)),
    ensures
        r.shape@ == seq![input.shape@[0], input.shape@[1], out_h, out_w],
        r.dtype == input.dtype,
        r.wf(),
        forall|o: int|
            0 <= o < r.data@.len() ==> cubic_sample_ok(
                *read,
                *mac,
                *finish,
                zero,
                input.data@,
                out_plane_of(o, out_h * out_w) * input.shape@[2],
                input.shape@[3] as int,
                taps@[grid_point_of(o, input.shape@[1] as int, out_h * out_w)],
                grid_point_of(o, input.shape@[1] as int, out_h * out_w) as usize,
                #[trigger] r.data@[o],
            ),
{
    proof {
        lemma_numel_4(input.shape@);
    }
    let batch = input.shape[0];
    let channels = input.shape[1];
    let height = input.shape[2];
    let width = input.shape[3];
    let _ilen = input.data.len();
    let _tlen = taps.len();
    let (positions, total) = if batch == 0 {
        proof {
            assert(batch * channels * (out_h * out_w) == 0) by (nonlinear_arith)
                requires batch == 0;
        }
        (0, 0)
    } else {
        proof {
            assert(out_h * out_w <= batch * (out_h * out_w)) by (nonlinear_arith)
                requires batch >= 1, out_h * out_w >= 0;
            assert(batch * channels <= batch * channels * height * width) by (nonlinear_arith)
                requires batch >= 0, channels >= 0, height >= 1, width >= 1;
        }
        let positions = out_h * out_w;
        (positions, batch * channels * positions)
    };
    let mut out: Vec<T> = Vec::new();
    let mut o: usize = 0;
    while o < total
        invariant
            o <= total,
            batch > 0 ==> positions == out_h * out_w,
            batch == 0 ==> total == 0,
            total == batch * channels * (out_h * out_w),
            batch == input.shape@[0] && channels == input.shape@[1] && height == input.shape@[2] && width == input.shape@[3],
            height > 0 && width > 0,
            input.data@.len() == batch * channels * height * width,
            input.data@.len() <= usize::MAX,
            taps@.len() == batch * (out_h * out_w),
            taps@.len() <= usize::MAX,
            forall|i: int| 0 <= i < taps@.len() ==> tap_inside(#[trigger] taps@[i], height as int, width as int),
            forall|t: T| call_requires(*read, (t,)),
            forall|a: F, b: F, c: F| call_requires(*mac, (a, b, c)),
            forall|s: F, i: usize| call_requires(*finish, (s, i)),
            out@.len() == o,
            forall|o2: int|
                0 <= o2 < o ==> cubic_sample_ok(
                    *read,
                    *mac,
                    *finish,
                    zero,
                    input.data@,
                    out_plane_of(o2, out_h * out_w) * height,
                    width as int,
                    taps@[grid_point_of(o2, channels as int, out_h * out_w)],
                    grid_point_of(o2, channels as int, out_h * out_w) as usize,
                    #[trigger] out@[o2],
                ),
        decreases total - o,
    {
        proof {
            assert(positions > 0 && channels > 0 && batch > 0) by (nonlinear_arith)
                requires o < batch * channels * (out_h * out_w), o >= 0, batch >= 0, channels >= 0, out_h * out_w >= 0,
                    batch > 0 ==> positions == out_h * out_w, batch == 0 ==> total == 0, total == batch * channels * (out_h * out_w);
            assert(batch * channels * positions == (batch * channels) * positions);
            lemma_div_lt(o as int, (batch * channels) as int, positions as int);
            lemma_div_lt((o / positions) as int, batch as int, channels as int);
        }
        let plane = o / positions;
        let p = o % positions;
        let n = plane / channels;
        proof {
            lemma_offset2(n as int, p as int, batch as int, positions as int);
            assert(plane * height + height <= batch * channels * height) by (nonlinear_arith)
                requires plane < batch * channels, height >= 0;
            assert((plane * height + height) * width <= batch * channels * height * width) by (nonlinear_arith)
                requires plane * height + height <= batch * channels * height, width >= 0;
            assert(plane * height <= (plane * height + height) * width) by (nonlinear_arith)
                requires width >= 1, plane >= 0, height >= 0;
        }
        let base = plane * height;
        let q = n * positions + p;
        let v = sample_one(input.data.as_slice(), base, height, width, &taps[q], q, zero, read, mac, finish);
        out.push(v);
        o = o + 1;
    }
    proof {
        assert(out@.len() == batch * channels * out_h * out_w) by (nonlinear_arith)
            requires out@.len() == total, total == batch * channels * (out_h * out_w);
    }
    let shape = vec![batch, channels, out_h, out_w];
    let r = HostTensor { shape, data: out, dtype: input.dtype };
    proof {
        lemma_numel_4(r.shape@);
    }
    r
}

} // verus!
