//! Gradients of the deformable convolution with respect to its input, its
//! offsets, its weights, its mask and its bias.
//!
//! Every `(sample, output channel, output position, input channel, kernel
//! tap)` step, in that loop order, adds its contributions to the gradient
//! buffers: the weight gradient gains `(grad_out * mask) * sample`, the mask
//! gradient `(grad_out * weight) * sample`, and the caller's sampler
//! backward hands out the input-corner and offset contributions of
//! `(grad_out * mask) * weight`.
use vstd::prelude::*;
use vstd::slice::slice_subrange;
use crate::arith::{lemma_div_lt, lemma_div_mod_offset, lemma_offset2, lemma_mul_nonneg};
use crate::fold::{scatters_to, lemma_scatters_to_empty, lemma_scatters_to_push};
use crate::tensor::{DType, HostTensor, lemma_numel_4};
use super::deform::{DeformGeom, deform_geom, input_plane};

verus! {

/// Adds `v` to `grad[pos]`, one more scatter event.
fn scatter_add<T: Copy, A: Fn(T, T) -> T>(
    grad: &mut Vec<T>,
    pos: usize,
    v: T,
    add_fn: &A,
    init: Ghost<Seq<T>>,
    events: Ghost<Seq<Option<(int, T)>>>,
)
    requires
        pos < old(grad)@.len(),
        scatters_to(*add_fn, init@, events@, old(grad)@),
        forall|a: T, b: T| call_requires(*add_fn, (a, b)),
    ensures
        final(grad)@.len() == old(grad)@.len(),
        scatters_to(*add_fn, init@, events@.push(Option::Some((pos as int, v))), final(grad)@),
{
    let ghost before = grad@;
    let s = add_fn(grad[pos], v);
    grad.set(pos, s);
    proof {
        assert(grad@ == before.update(pos as int, grad@[pos as int]));
        lemma_scatters_to_push(*add_fn, init@, events@, before, Option::Some((pos as int, v)), grad@);
    }
}

/// An event that changes nothing keeps the scatter as it was.
proof fn lemma_scatter_none<T, A: Fn(T, T) -> T>(add_fn: A, init: Seq<T>, events: Seq<Option<(int, T)>>, out: Seq<T>)
    requires
        scatters_to(add_fn, init, events, out),
    ensures
        scatters_to(add_fn, init, events.push(Option::None), out),
{
    lemma_scatters_to_push(add_fn, init, events, out, Option::None, out);
}

/// A zero-filled buffer.
fn zeros<T: Copy>(zero: T, n: usize) -> (r: Vec<T>)
    ensures
        r@ == Seq::new(n as nat, |i: int| zero),
{
    let mut r: Vec<T> = Vec::new();
    let mut i: usize = 0;
    while i < n
        invariant
            i <= n,
            r@ == Seq::new(i as nat, |j: int| zero),
        decreases n - i,
    {
        r.push(zero);
        i = i + 1;
        proof {
            assert(r@ =~= Seq::new(i as nat, |j: int| zero));
        }
    }
    r
}

/// The bias gradient events: element `(b, oc, s)` of the output gradient,
/// in that order, is added to entry `oc`.
pub open spec fn bias_grad_events<T>(og: Seq<T>, c_out: int, sp: int) -> Seq<Option<(int, T)>> {
    Seq::new(og.len(), |t: int| Option::Some(((t / sp) % c_out, og[t])))
}

/// The coordinates `(b, oc, s, icl, k)` of backward step `n`.
pub open spec fn step_coords(g: DeformGeom, n: int) -> (int, int, int, int, int) {
    let taps = g.taps();
    let icpg = g.icpg as int;
    let sp = g.spatial();
    let c_out = g.c_out as int;
    let q1 = n / taps;
    let q2 = q1 / icpg;
    let q3 = q2 / sp;
    (q3 / c_out, q3 % c_out, q2 % sp, q1 % icpg, n % taps)
}

/// Number of backward steps.
pub open spec fn step_count(g: DeformGeom) -> int {
    g.batch * g.c_out * g.spatial() * g.icpg * g.taps()
}

/// The values one backward step produces: the sample, the weight and mask
/// gradient contributions, the value handed to the sampler backward, its
/// corner contributions (plane offset, value) and its offset contributions.
pub type StepRecord<T> = (T, T, T, T, Seq<(usize, T)>, Option<(T, T)>);

/// Input channel of step coordinates.
pub open spec fn step_channel(g: DeformGeom, oc: int, icl: int) -> int {
    (oc / g.ocpg()) * g.icpg + icl
}

/// Offset group of an input channel.
pub open spec fn step_offset_group(g: DeformGeom, ic: int) -> int {
    ic / g.cpog()
}

/// Where the height offset of a step lives in the offset tensor (the width
/// offset follows one channel later).
pub open spec fn offset_h_index(g: DeformGeom, b: int, ic: int, k: int, s: int) -> int {
    (b * g.off_c + step_offset_group(g, ic) * g.taps() * 2 + k * 2) * g.spatial() + s
}

pub open spec fn offset_w_index(g: DeformGeom, b: int, ic: int, k: int, s: int) -> int {
    (b * g.off_c + step_offset_group(g, ic) * g.taps() * 2 + k * 2 + 1) * g.spatial() + s
}

/// Where the mask entry of a step lives.
pub open spec fn mask_index(g: DeformGeom, b: int, ic: int, k: int, s: int) -> int {
    (b * g.offset_groups * g.taps() + step_offset_group(g, ic) * g.taps() + k) * g.spatial() + s
}

/// Where the weight of a step lives.
pub open spec fn weight_index(g: DeformGeom, oc: int, icl: int, k: int) -> int {
    (oc * g.icpg + icl) * g.taps() + k
}

/// First element of the input plane of a step.
pub open spec fn plane_base(g: DeformGeom, b: int, ic: int) -> int {
    (b * g.c_in + ic) * (g.in_h * g.in_w)
}

/// The mask entry of a step, or `one` without a mask.
pub open spec fn step_mask_value<T>(g: DeformGeom, mask: Option<Seq<T>>, one: T, b: int, ic: int, k: int, s: int) -> T {
    match mask {
        Option::Some(m) => m[mask_index(g, b, ic, k, s)],
        Option::None => one,
    }
}

/// `rec` is what step `n` computes from the operands.
pub open spec fn step_ok<T, S, B, M>(
    sample: S,
    sample_backward: B,
    mul_fn: M,
    one: T,
    x: Seq<T>,
    offset: Seq<T>,
    mask: Option<Seq<T>>,
    w: Seq<T>,
    og: Seq<T>,
    g: DeformGeom,
    n: int,
    rec: StepRecord<T>,
) -> bool where
    S: Fn(&[T], usize, usize, usize, usize, usize, usize, T, T) -> T,
    B: Fn(&[T], usize, usize, usize, usize, usize, usize, T, T, T) -> (Vec<(usize, T)>, Option<(T, T)>),
    M: Fn(T, T) -> T,
 {
    let (b, oc, s, icl, k) = step_coords(g, n);
    let ic = step_channel(g, oc, icl);
    let kw = g.kw as int;
    let oh = s / (g.out_w as int);
    let ow = s % (g.out_w as int);
    let pos_h = (oh * g.stride[0] + (k / kw) * g.dilation[0]) as usize;
    let pos_w = (ow * g.stride[1] + (k % kw) * g.dilation[1]) as usize;
    let off_h = offset[offset_h_index(g, b, ic, k, s)];
    let off_w = offset[offset_w_index(g, b, ic, k, s)];
    let grad_out = og[(b * g.c_out + oc) * g.spatial() + s];
    let mask_val = step_mask_value(g, mask, one, b, ic, k, s);
    let wt = w[weight_index(g, oc, icl, k)];
    let plane = input_plane(x, g, b, ic);
    &&& exists|a: &[T]|
        #[trigger] call_ensures(sample, (a, g.in_h, g.in_w, pos_h, g.padding[0], pos_w, g.padding[1], off_h, off_w), rec.0)
            && a@ == plane
    &&& exists|t1: T|
        #[trigger] call_ensures(mul_fn, (grad_out, mask_val), t1) && call_ensures(mul_fn, (t1, rec.0), rec.1) && call_ensures(
            mul_fn,
            (t1, wt),
            rec.3,
        )
    &&& mask is Some ==> exists|t2: T| #[trigger] call_ensures(mul_fn, (grad_out, wt), t2) && call_ensures(mul_fn, (t2, rec.0), rec.2)
    &&& exists|a: &[T], ret: (Vec<(usize, T)>, Option<(T, T)>)|
        #[trigger] call_ensures(
            sample_backward,
            (a, g.in_h, g.in_w, pos_h, g.padding[0], pos_w, g.padding[1], off_h, off_w, rec.3),
            ret,
        ) && a@ == plane && rec.4 == ret.0@ && rec.5 == ret.1
}

/// The weight gradient events of the steps.
pub open spec fn weight_events<T>(g: DeformGeom, recs: Seq<StepRecord<T>>) -> Seq<Option<(int, T)>> {
    Seq::new(
        recs.len(),
        |n: int|
            {
                let (b, oc, s, icl, k) = step_coords(g, n);
                Option::Some((weight_index(g, oc, icl, k), recs[n].1))
            },
    )
}

/// The mask gradient events of the steps (none without a mask).
pub open spec fn mask_events<T>(g: DeformGeom, has_mask: bool, recs: Seq<StepRecord<T>>) -> Seq<Option<(int, T)>> {
    Seq::new(
        recs.len(),
        |n: int|
            {
                let (b, oc, s, icl, k) = step_coords(g, n);
                if has_mask {
                    Option::Some((mask_index(g, b, step_channel(g, oc, icl), k, s), recs[n].2))
                } else {
                    Option::None
                }
            },
    )
}

/// The offset gradient events: two slots per step, height then width, both
/// empty when the sampler backward gave no offset contribution.
pub open spec fn offset_events<T>(g: DeformGeom, recs: Seq<StepRecord<T>>) -> Seq<Option<(int, T)>> {
    Seq::new(
        2 * recs.len(),
        |e: int|
            {
                let n = e / 2;
                let (b, oc, s, icl, k) = step_coords(g, n);
                let ic = step_channel(g, oc, icl);
                match recs[n].5 {
                    Option::Some(p) => if e % 2 == 0 {
                        Option::Some((offset_h_index(g, b, ic, k, s), p.0))
                    } else {
                        Option::Some((offset_w_index(g, b, ic, k, s), p.1))
                    },
                    Option::None => Option::None,
                }
            },
    )
}

/// The input gradient events: four slots per step, one per corner the
/// sampler backward named inside the plane.
pub open spec fn input_events<T>(g: DeformGeom, recs: Seq<StepRecord<T>>) -> Seq<Option<(int, T)>> {
    Seq::new(
        4 * recs.len(),
        |e: int|
            {
                let n = e / 4;
                let c = e % 4;
                let (b, oc, s, icl, k) = step_coords(g, n);
                let ic = step_channel(g, oc, icl);
                let corners = recs[n].4;
                if c < corners.len() && corners[c].0 < g.in_h * g.in_w {
                    Option::Some((plane_base(g, b, ic) + corners[c].0, corners[c].1))
                } else {
                    Option::None
                }
            },
    )
}

} // verus!

verus! {

/// Step `p * col_len + j` is output element `p` (sample, channel,
/// position) and column row `j` (channel in group, tap).
proof fn lemma_step_coords(g: DeformGeom, p: int, j: int)
    requires
        0 <= p,
        0 <= j < g.col_len(),
        g.icpg >= 1,
        g.taps() >= 1,
        g.spatial() >= 1,
        g.c_out >= 1,
        g.col_len() == g.icpg * g.taps(),
    ensures
        step_coords(g, p * g.col_len() + j) == (
            p / g.spatial() / (g.c_out as int),
            (p / g.spatial()) % (g.c_out as int),
            p % g.spatial(),
            j / g.taps(),
            j % g.taps(),
        ),
{
    let taps = g.taps();
    let icpg = g.icpg as int;
    let cl = g.col_len();
    assert(cl == taps * icpg) by (nonlinear_arith)
        requires cl == icpg * taps;
    lemma_div_lt(j, icpg, taps);
    let n = p * cl + j;
    assert(n == (p * icpg + j / taps) * taps + j % taps) by (nonlinear_arith)
        requires n == p * cl + j, cl == icpg * taps, j == (j / taps) * taps + j % taps;
    lemma_mul_nonneg(p, icpg);
    lemma_div_mod_offset(p * icpg + j / taps, j % taps, taps);
    lemma_div_mod_offset(p, j / taps, icpg);
}

/// The parts of a deformable convolution backward: step records `recs`,
/// each what its step computes, and every gradient the scatter of its
/// events from zero.
pub open spec fn deform_backward_parts<T, S, B, M, A>(
    sample: S,
    sample_backward: B,
    mul_fn: M,
    add_fn: A,
    zero: T,
    one: T,
    x: Seq<T>,
    offset: Seq<T>,
    mask: Option<Seq<T>>,
    w: Seq<T>,
    og: Seq<T>,
    g: DeformGeom,
    x_grad: Seq<T>,
    offset_grad: Seq<T>,
    weight_grad: Seq<T>,
    mask_grad: Option<Seq<T>>,
    recs: Seq<StepRecord<T>>,
) -> bool where
    S: Fn(&[T], usize, usize, usize, usize, usize, usize, T, T) -> T,
    B: Fn(&[T], usize, usize, usize, usize, usize, usize, T, T, T) -> (Vec<(usize, T)>, Option<(T, T)>),
    M: Fn(T, T) -> T,
    A: Fn(T, T) -> T,
 {
    &&& recs.len() == step_count(g)
    &&& forall|n: int|
        0 <= n < recs.len() ==> #[trigger] step_ok(sample, sample_backward, mul_fn, one, x, offset, mask, w, og, g, n, recs[n])
    &&& scatters_to(add_fn, Seq::new(x.len(), |i: int| zero), input_events(g, recs), x_grad)
    &&& scatters_to(add_fn, Seq::new(offset.len(), |i: int| zero), offset_events(g, recs), offset_grad)
    &&& scatters_to(add_fn, Seq::new(w.len(), |i: int| zero), weight_events(g, recs), weight_grad)
    &&& match (mask, mask_grad) {
        (Option::Some(m), Option::Some(mg)) => scatters_to(add_fn, Seq::new(m.len(), |i: int| zero), mask_events(g, true, recs), mg),
        (Option::None, Option::None) => true,
        _ => false,
    }
}

} // verus!

verus! {

/// `s` when `b` holds, nothing otherwise.
pub open spec fn present_if<T>(b: bool, s: Seq<T>) -> Option<Seq<T>> {
    if b {
        Option::Some(s)
    } else {
        Option::None
    }
}

/// The input gradient event of corner slot `c` of a step.
pub open spec fn corner_event<T>(g: DeformGeom, b: int, ic: int, corners: Seq<(usize, T)>, c: int) -> Option<(int, T)> {
    if c < corners.len() && corners[c].0 < g.in_h * g.in_w {
        Option::Some((plane_base(g, b, ic) + corners[c].0, corners[c].1))
    } else {
        Option::None
    }
}

/// One backward step `n` at coordinates `(b, oc, s, icl, k)`: its
/// contributions are scattered into the gradient buffers and its record is
/// returned.
fn backward_step<T: Copy, S, B, M, A>(
    x: &Vec<T>,
    offset: &Vec<T>,
    mask: &Vec<T>,
    has_mask: bool,
    w: &Vec<T>,
    og: &Vec<T>,
    g: &DeformGeom,
    b: usize,
    oc: usize,
    s: usize,
    icl: usize,
    k: usize,
    one: T,
    sample: &S,
    sample_backward: &B,
    mul_fn: &M,
    add_fn: &A,
    x_grad: &mut Vec<T>,
    offset_grad: &mut Vec<T>,
    weight_grad: &mut Vec<T>,
    mask_grad: &mut Vec<T>,
    n: Ghost<int>,
    recs: Ghost<Seq<StepRecord<T>>>,
    inits: Ghost<(Seq<T>, Seq<T>, Seq<T>, Seq<T>)>,
) -> (rec: Ghost<StepRecord<T>>) where
    S: Fn(&[T], usize, usize, usize, usize, usize, usize, T, T) -> T,
    B: Fn(&[T], usize, usize, usize, usize, usize, usize, T, T, T) -> (Vec<(usize, T)>, Option<(T, T)>),
    M: Fn(T, T) -> T,
    A: Fn(T, T) -> T,

    requires
        g.valid(),
        b < g.batch,
        oc < g.c_out,
        s < g.spatial(),
        icl < g.icpg,
        k < g.taps(),
        step_coords(*g, n@) == (b as int, oc as int, s as int, icl as int, k as int),
        recs@.len() == n@,
        x@.len() == g.batch * g.c_in * g.in_h * g.in_w,
        offset@.len() == g.batch * g.off_c * g.spatial(),
        w@.len() == g.c_out * g.icpg * g.kh * g.kw,
        og@.len() == g.batch * g.c_out * g.spatial(),
        has_mask ==> mask@.len() == g.batch * g.offset_groups * g.taps() * g.spatial(),
        forall|a: &[T], h: usize, ww: usize, ph: usize, pp: usize, pw: usize, pq: usize, u: T, v: T|
            call_requires(*sample, (a, h, ww, ph, pp, pw, pq, u, v)),
        forall|a: &[T], h: usize, ww: usize, ph: usize, pp: usize, pw: usize, pq: usize, u: T, v: T, gv: T|
            call_requires(*sample_backward, (a, h, ww, ph, pp, pw, pq, u, v, gv)),
        forall|a: T, c: T| call_requires(*mul_fn, (a, c)),
        forall|a: T, c: T| call_requires(*add_fn, (a, c)),
        old(x_grad)@.len() == x@.len(),
        old(offset_grad)@.len() == offset@.len(),
        old(weight_grad)@.len() == w@.len(),
        has_mask ==> old(mask_grad)@.len() == mask@.len(),
        scatters_to(*add_fn, inits@.0, input_events(*g, recs@), old(x_grad)@),
        scatters_to(*add_fn, inits@.1, offset_events(*g, recs@), old(offset_grad)@),
        scatters_to(*add_fn, inits@.2, weight_events(*g, recs@), old(weight_grad)@),
        has_mask ==> scatters_to(*add_fn, inits@.3, mask_events(*g, true, recs@), old(mask_grad)@),
    ensures
        step_ok(
            *sample,
            *sample_backward,
            *mul_fn,
            one,
            x@,
            offset@,
            present_if(has_mask, mask@),
            w@,
            og@,
            *g,
            n@,
            rec@,
        ),
        final(x_grad)@.len() == x@.len(),
        final(offset_grad)@.len() == offset@.len(),
        final(weight_grad)@.len() == w@.len(),
        has_mask ==> final(mask_grad)@.len() == mask@.len(),
        !has_mask ==> final(mask_grad)@ == old(mask_grad)@,
        scatters_to(*add_fn, inits@.0, input_events(*g, recs@.push(rec@)), final(x_grad)@),
        scatters_to(*add_fn, inits@.1, offset_events(*g, recs@.push(rec@)), final(offset_grad)@),
        scatters_to(*add_fn, inits@.2, weight_events(*g, recs@.push(rec@)), final(weight_grad)@),
        has_mask ==> scatters_to(*add_fn, inits@.3, mask_events(*g, true, recs@.push(rec@)), final(mask_grad)@),
{
    let ghost mview: Option<Seq<T>> = present_if(has_mask, mask@);
    let _xl = x.len();
    let _ol = offset.len();
    let _wl = w.len();
    let _gl = og.len();
    let _ml = mask.len();
    let taps = g.kh * g.kw;
    let sp = g.out_h * g.out_w;
    let icpg = g.icpg;
    let kw = g.kw;
    let ow_n = g.out_w;
    proof {
        vstd::arithmetic::div_mod::lemma_fundamental_div_mod(g.c_out as int, g.weight_groups as int);
        assert(g.c_out == g.weight_groups * g.ocpg());
        assert(g.ocpg() >= 1) by (nonlinear_arith)
            requires g.c_out == g.weight_groups * g.ocpg(), oc < g.c_out, g.weight_groups >= 1;
        assert(g.c_out == g.ocpg() * g.weight_groups) by (nonlinear_arith)
            requires g.c_out == g.weight_groups * g.ocpg();
        lemma_div_lt(oc as int, g.weight_groups as int, g.ocpg());
        assert(kw >= 1) by (nonlinear_arith)
            requires k < taps, taps == g.kh * g.kw, kw == g.kw;
        assert(ow_n >= 1) by (nonlinear_arith)
            requires s < sp, sp == g.out_h * g.out_w, ow_n == g.out_w;
    }
    let ocpg = g.c_out / g.weight_groups;
    let grp = oc / ocpg;
    proof {
        assert(grp * icpg + icl < g.c_in) by (nonlinear_arith)
            requires grp < g.weight_groups, icl < icpg, g.c_in == g.weight_groups * g.icpg, icpg == g.icpg;
        assert(0 <= grp * icpg) by (nonlinear_arith)
            requires grp >= 0, icpg >= 0;
    }
    let ic = grp * icpg + icl;
    proof {
        lemma_div_lt(k as int, g.kh as int, kw as int);
        lemma_div_lt(s as int, g.out_h as int, ow_n as int);
        super::deform::lemma_deform_indices(*g, b as int, ic as int, k as int, s as int);
    }
    let i = k / kw;
    let j = k % kw;
    let oh = s / ow_n;
    let ow = s % ow_n;
    // The input plane of the step.
    proof {
        assert(g.in_h * g.in_w <= x@.len()) by (nonlinear_arith)
            requires x@.len() == g.batch * g.c_in * g.in_h * g.in_w, g.batch >= 1, g.c_in >= 1;
    }
    let hw = g.in_h * g.in_w;
    proof {
        lemma_offset2(b as int, ic as int, g.batch as int, g.c_in as int);
        if hw > 0 {
            assert(g.batch * g.c_in <= x@.len()) by (nonlinear_arith)
                requires x@.len() == g.batch * g.c_in * g.in_h * g.in_w, hw == g.in_h * g.in_w, hw >= 1;
            assert((b * g.c_in + ic) * hw + hw <= x@.len()) by (nonlinear_arith)
                requires b * g.c_in + ic + 1 <= g.batch * g.c_in, x@.len() == g.batch * g.c_in * g.in_h * g.in_w, hw
                    == g.in_h * g.in_w, hw >= 0;
            assert(0 <= (b * g.c_in + ic) * hw) by (nonlinear_arith)
                requires b * g.c_in + ic >= 0, hw >= 0;
        } else {
            assert((b * g.c_in + ic) * hw == 0) by (nonlinear_arith)
                requires hw == 0;
        }
    }
    let base = if hw == 0 { 0 } else { (b * g.c_in + ic) * hw };
    let plane = slice_subrange(x.as_slice(), base, base + hw);
    proof {
        assert(plane@ == input_plane(x@, *g, b as int, ic as int));
        assert(base as int == plane_base(*g, b as int, ic as int));
    }
    // Offsets, positions, gradient, mask and weight of the step.
    let og_idx = ic / (g.c_in / g.offset_groups);
    let oc_h = og_idx * taps * 2 + k * 2;
    let off_h = offset[(b * g.off_c + oc_h) * sp + s];
    let off_w = offset[(b * g.off_c + oc_h + 1) * sp + s];
    proof {
        assert(oh * g.stride[0] + i * g.dilation[0] <= (g.out_h - 1) * g.stride[0] + (g.kh - 1) * g.dilation[0]) by (nonlinear_arith)
            requires oh <= g.out_h - 1, i <= g.kh - 1, g.stride[0] >= 0, g.dilation[0] >= 0, oh >= 0, i >= 0;
        assert(ow * g.stride[1] + j * g.dilation[1] <= (g.out_w - 1) * g.stride[1] + (g.kw - 1) * g.dilation[1]) by (nonlinear_arith)
            requires ow <= g.out_w - 1, j <= g.kw - 1, g.stride[1] >= 0, g.dilation[1] >= 0, ow >= 0, j >= 0;
        assert(0 <= oh * g.stride[0] && 0 <= i * g.dilation[0] && 0 <= ow * g.stride[1] && 0 <= j * g.dilation[1]) by (nonlinear_arith)
            requires oh >= 0, i >= 0, ow >= 0, j >= 0;
        lemma_offset2(b as int, oc as int, g.batch as int, g.c_out as int);
        lemma_offset2((b * g.c_out + oc) as int, s as int, (g.batch * g.c_out) as int, sp as int);
        lemma_offset2(oc as int, icl as int, g.c_out as int, icpg as int);
        lemma_offset2((oc * icpg + icl) as int, k as int, (g.c_out * icpg) as int, taps as int);
        assert(g.c_out * icpg * taps == g.c_out * g.icpg * g.kh * g.kw) by (nonlinear_arith)
            requires icpg == g.icpg, taps == g.kh * g.kw;
        assert(g.c_out * icpg <= g.c_out * icpg * taps) by (nonlinear_arith)
            requires taps >= 1, g.c_out * icpg >= 0;
        assert(g.batch * g.c_out <= g.batch * g.c_out * sp) by (nonlinear_arith)
            requires sp >= 1, g.batch * g.c_out >= 0;
    }
    let pos_h = oh * g.stride[0] + i * g.dilation[0];
    let pos_w = ow * g.stride[1] + j * g.dilation[1];
    let grad_out = og[(b * g.c_out + oc) * sp + s];
    let midx: usize = if has_mask { (b * g.offset_groups * taps + og_idx * taps + k) * sp + s } else { 0 };
    let mask_val = if has_mask { mask[midx] } else { one };
    let widx = (oc * icpg + icl) * taps + k;
    let wt = w[widx];
    let interp = sample(plane, g.in_h, g.in_w, pos_h, g.padding[0], pos_w, g.padding[1], off_h, off_w);
    let t1 = mul_fn(grad_out, mask_val);
    let wv = mul_fn(t1, interp);
    let gv = mul_fn(t1, wt);
    proof {
        assert(widx as int == weight_index(*g, oc as int, icl as int, k as int));
    }
    scatter_add(weight_grad, widx, wv, add_fn, Ghost(inits@.2), Ghost(weight_events(*g, recs@)));
    let (mv, t2g) = if has_mask {
        let t2 = mul_fn(grad_out, wt);
        let mv = mul_fn(t2, interp);
        proof {
            assert(midx as int == mask_index(*g, b as int, ic as int, k as int, s as int));
        }
        scatter_add(mask_grad, midx, mv, add_fn, Ghost(inits@.3), Ghost(mask_events(*g, true, recs@)));
        (mv, Ghost(t2))
    } else {
        (wv, Ghost(wv))
    };
    proof {
        if has_mask {
            assert(call_ensures(*mul_fn, (grad_out, wt), t2g@) && call_ensures(*mul_fn, (t2g@, interp), mv));
        }
    }
    let ret = sample_backward(plane, g.in_h, g.in_w, pos_h, g.padding[0], pos_w, g.padding[1], off_h, off_w, gv);
    let ghost corners = ret.0@;
    let ghost rec: StepRecord<T> = (interp, wv, mv, gv, ret.0@, ret.1);
    // The corner contributions to the input gradient.
    let mut c: usize = 0;
    while c < 4
        invariant
            c <= 4,
            corners == ret.0@,
            base as int == plane_base(*g, b as int, ic as int),
            hw == g.in_h * g.in_w,
            base + hw <= x@.len(),
            x@.len() <= usize::MAX,
            x_grad@.len() == x@.len(),
            forall|a: T, cc: T| call_requires(*add_fn, (a, cc)),
            scatters_to(
                *add_fn,
                inits@.0,
                input_events(*g, recs@) + Seq::new(c as nat, |cc: int| corner_event(*g, b as int, ic as int, corners, cc)),
                x_grad@,
            ),
        decreases 4 - c,
    {
        let ghost ev_before = input_events(*g, recs@) + Seq::new(c as nat, |cc: int| corner_event(*g, b as int, ic as int, corners, cc));
        let ghost ev_after = input_events(*g, recs@) + Seq::new((c + 1) as nat, |cc: int| corner_event(*g, b as int, ic as int, corners, cc));
        proof {
            assert(ev_after =~= ev_before.push(corner_event(*g, b as int, ic as int, corners, c as int)));
        }
        if c < ret.0.len() && ret.0[c].0 < hw {
            let (pos, v) = ret.0[c];
            scatter_add(x_grad, base + pos, v, add_fn, Ghost(inits@.0), Ghost(ev_before));
        } else {
            proof {
                lemma_scatter_none(*add_fn, inits@.0, ev_before, x_grad@);
            }
        }
        c = c + 1;
    }
    // The offset contributions.
    let hidx = (b * g.off_c + oc_h) * sp + s;
    let widx2 = (b * g.off_c + oc_h + 1) * sp + s;
    proof {
        assert(hidx as int == offset_h_index(*g, b as int, ic as int, k as int, s as int));
        assert(widx2 as int == offset_w_index(*g, b as int, ic as int, k as int, s as int));
    }
    let ghost oev = offset_events(*g, recs@);
    match ret.1 {
        Option::Some(pair) => {
            scatter_add(offset_grad, hidx, pair.0, add_fn, Ghost(inits@.1), Ghost(oev));
            scatter_add(offset_grad, widx2, pair.1, add_fn, Ghost(inits@.1), Ghost(oev.push(Option::Some((hidx as int, pair.0)))));
        },
        Option::None => {
            proof {
                lemma_scatter_none(*add_fn, inits@.1, oev, offset_grad@);
                lemma_scatter_none(*add_fn, inits@.1, oev.push(Option::None), offset_grad@);
            }
        },
    }
    proof {
        let r2 = recs@.push(rec);
        let nn = n@;
        // Each event sequence gains the step's events.
        assert(weight_events(*g, r2) =~= weight_events(*g, recs@).push(Option::Some((widx as int, wv))));
        if has_mask {
            assert(mask_events(*g, true, r2) =~= mask_events(*g, true, recs@).push(Option::Some((midx as int, mv))));
        }
        let o2 = offset_events(*g, r2);
        match ret.1 {
            Option::Some(pair) => {
                assert(o2 =~= oev.push(Option::Some((hidx as int, pair.0))).push(Option::Some((widx2 as int, pair.1)))) by {
                    assert forall|e: int| 0 <= e < o2.len() implies o2[e] == oev.push(Option::Some((hidx as int, pair.0))).push(
                        Option::Some((widx2 as int, pair.1)),
                    )[e] by {
                        if e < 2 * nn {
                            assert(e / 2 < nn) by (nonlinear_arith)
                                requires e < 2 * nn, e >= 0;
                        } else if e == 2 * nn {
                            assert(e / 2 == nn && e % 2 == 0);
                        } else {
                            assert(e / 2 == nn && e % 2 == 1);
                        }
                    }
                }
            },
            Option::None => {
                assert(o2 =~= oev.push(Option::None).push(Option::None)) by {
                    assert forall|e: int| 0 <= e < o2.len() implies o2[e] == oev.push(Option::None).push(Option::None)[e] by {
                        if e < 2 * nn {
                            assert(e / 2 < nn) by (nonlinear_arith)
                                requires e < 2 * nn, e >= 0;
                        } else {
                            assert(e / 2 == nn);
                        }
                    }
                }
            },
        }
        let i2 = input_events(*g, r2);
        let added = input_events(*g, recs@) + Seq::new(4, |cc: int| corner_event(*g, b as int, ic as int, corners, cc));
        assert(i2 =~= added) by {
            assert forall|e: int| 0 <= e < i2.len() implies i2[e] == added[e] by {
                if e < 4 * nn {
                    assert(e / 4 < nn) by (nonlinear_arith)
                        requires e < 4 * nn, e >= 0;
                } else {
                    assert(e / 4 == nn);
                    assert(e % 4 == e - 4 * nn);
                }
            }
        }
        // The record is what the step computed.
        assert(call_ensures(
            *sample,
            (
                plane,
                g.in_h,
                g.in_w,
                ((oh as int) * g.stride[0] + ((k as int) / (kw as int)) * g.dilation[0]) as usize,
                g.padding[0],
                ((ow as int) * g.stride[1] + ((k as int) % (kw as int)) * g.dilation[1]) as usize,
                g.padding[1],
                off_h,
                off_w,
            ),
            interp,
        ));
        assert(call_ensures(
            *sample_backward,
            (
                plane,
                g.in_h,
                g.in_w,
                ((oh as int) * g.stride[0] + ((k as int) / (kw as int)) * g.dilation[0]) as usize,
                g.padding[0],
                ((ow as int) * g.stride[1] + ((k as int) % (kw as int)) * g.dilation[1]) as usize,
                g.padding[1],
                off_h,
                off_w,
                gv,
            ),
            ret,
        ));
        assert(step_ok(*sample, *sample_backward, *mul_fn, one, x@, offset@, mview, w@, og@, *g, n@, rec));
    }
    Ghost(rec)
}

} // verus!

verus! {

/// The operands of the backward pass: those of the forward pass (without
/// the bias, whose values it never reads) and an output gradient of the
/// output's shape `[batch, c_out, out_h, out_w]`.
pub open spec fn deform_backward_inputs_ok<T>(
    x: HostTensor<T>,
    offset: HostTensor<T>,
    weight: HostTensor<T>,
    mask: Option<HostTensor<T>>,
    output_grad: HostTensor<T>,
    g: DeformGeom,
) -> bool {
    &&& super::deform::deform_inputs_ok(x, offset, weight, mask, Option::None, g)
    &&& output_grad.wf()
    &&& output_grad.shape@ == seq![g.batch, g.c_out, g.out_h, g.out_w]
}

/// The sampler, its backward and the element operations accept anything.
pub open spec fn deform_backward_ops_ready<T, S, B, M, A>(sample: S, sample_backward: B, mul_fn: M, add_fn: A) -> bool where
    S: Fn(&[T], usize, usize, usize, usize, usize, usize, T, T) -> T,
    B: Fn(&[T], usize, usize, usize, usize, usize, usize, T, T, T) -> (Vec<(usize, T)>, Option<(T, T)>),
    M: Fn(T, T) -> T,
    A: Fn(T, T) -> T,
 {
    &&& forall|a: &[T], h: usize, w: usize, ph: usize, pp: usize, pw: usize, pq: usize, u: T, v: T|
        call_requires(sample, (a, h, w, ph, pp, pw, pq, u, v))
    &&& forall|a: &[T], h: usize, w: usize, ph: usize, pp: usize, pw: usize, pq: usize, u: T, v: T, gv: T|
        call_requires(sample_backward, (a, h, w, ph, pp, pw, pq, u, v, gv))
    &&& forall|a: T, c: T| call_requires(mul_fn, (a, c))
    &&& forall|a: T, c: T| call_requires(add_fn, (a, c))
}

/// The elements of an optional tensor.
pub open spec fn opt_data<T>(t: Option<HostTensor<T>>) -> Option<Seq<T>> {
    match t {
        Option::Some(v) => Option::Some(v.data@),
        Option::None => Option::None,
    }
}

/// Gradients of a deformable convolution: `(x_grad, offset_grad,
/// weight_grad, mask_grad, bias_grad)`. The bias gradient (present when
/// there is a bias) sums the output gradient over samples and positions;
/// the others accumulate, from zero and in step order, the contributions of
/// every `(sample, output channel, position, input channel, tap)` step,
/// with the sampler's value and its backward's corner and offset
/// contributions supplied by `sample` and `sample_backward`. Every gradient
/// is tagged `dtype`.
pub fn deform_conv2d_backward<T: Copy, S, B, M, A>(
    x: HostTensor<T>,
    offset: HostTensor<T>,
    weight: HostTensor<T>,
    mask: Option<HostTensor<T>>,
    bias: Option<HostTensor<T>>,
    output_grad: HostTensor<T>,
    stride: [usize; 2],
    padding: [usize; 2],
    dilation: [usize; 2],
    weight_groups: usize,
    offset_groups: usize,
    zero: T,
    one: T,
    sample: &S,
    sample_backward: &B,
    mul_fn: &M,
    add_fn: &A,
    dtype: DType,
) -> (r: (HostTensor<T>, HostTensor<T>, HostTensor<T>, Option<HostTensor<T>>, Option<HostTensor<T>>)) where
    S: Fn(&[T], usize, usize, usize, usize, usize, usize, T, T) -> T,
    B: Fn(&[T], usize, usize, usize, usize, usize, usize, T, T, T) -> (Vec<(usize, T)>, Option<(T, T)>),
    M: Fn(T, T) -> T,
    A: Fn(T, T) -> T,

    requires
        deform_backward_inputs_ok(
            x,
            offset,
            weight,
            mask,
            output_grad,
            deform_geom(x.shape@, weight.shape@, offset.shape@, stride, padding, dilation, weight_groups, offset_groups),
        ),
        deform_backward_ops_ready(*sample, *sample_backward, *mul_fn, *add_fn),
    ensures
        r.0.shape@ == x.shape@ && r.0.dtype == dtype,
        r.1.shape@ == offset.shape@ && r.1.dtype == dtype,
        r.2.shape@ == weight.shape@ && r.2.dtype == dtype,
        r.3 is Some <==> mask is Some,
        r.3 is Some ==> r.3->0.shape@ == mask->0.shape@ && r.3->0.dtype == dtype,
        r.4 is Some <==> bias is Some,
        r.4 is Some ==> r.4->0.shape@ == seq![weight.shape@[0]] && r.4->0.dtype == dtype && scatters_to(
            *add_fn,
            Seq::new(weight.shape@[0] as nat, |i: int| zero),
            bias_grad_events(output_grad.data@, weight.shape@[0] as int, offset.shape@[2] * offset.shape@[3]),
            r.4->0.data@,
        ),
        exists|recs: Seq<StepRecord<T>>|
            #[trigger] deform_backward_parts(
                *sample,
                *sample_backward,
                *mul_fn,
                *add_fn,
                zero,
                one,
                x.data@,
                offset.data@,
                opt_data(mask),
                weight.data@,
                output_grad.data@,
                deform_geom(x.shape@, weight.shape@, offset.shape@, stride, padding, dilation, weight_groups, offset_groups),
                r.0.data@,
                r.1.data@,
                r.2.data@,
                opt_data(r.3),
                recs,
            ),
{
    let g = DeformGeom {
        batch: x.shape[0],
        c_in: x.shape[1],
        in_h: x.shape[2],
        in_w: x.shape[3],
        c_out: weight.shape[0],
        icpg: weight.shape[1],
        kh: weight.shape[2],
        kw: weight.shape[3],
        out_h: offset.shape[2],
        out_w: offset.shape[3],
        off_c: offset.shape[1],
        stride,
        padding,
        dilation,
        weight_groups,
        offset_groups,
    };
    proof {
        assert(g == deform_geom(x.shape@, weight.shape@, offset.shape@, stride, padding, dilation, weight_groups, offset_groups));
        lemma_numel_4(x.shape@);
        lemma_numel_4(offset.shape@);
        lemma_numel_4(weight.shape@);
        lemma_numel_4(output_grad.shape@);
        if mask is Some {
            lemma_numel_4(mask->0.shape@);
            assert(g.batch * (g.offset_groups * g.kh * g.kw) * g.out_h * g.out_w == g.batch * g.offset_groups * g.taps()
                * g.spatial()) by (nonlinear_arith);
        }
        assert(offset.data@.len() == g.batch * g.off_c * g.spatial()) by (nonlinear_arith)
            requires offset.data@.len() == offset.shape@[0] * offset.shape@[1] * offset.shape@[2] * offset.shape@[3],
                offset.shape@[0] == g.batch, offset.shape@[1] == g.off_c, offset.shape@[2] == g.out_h, offset.shape@[3] == g.out_w;
        assert(output_grad.data@.len() == g.batch * g.c_out * g.spatial()) by (nonlinear_arith)
            requires output_grad.data@.len() == g.batch * g.c_out * g.out_h * g.out_w;
    }
    let has_mask = mask.is_some();
    let empty: Vec<T> = Vec::new();
    let mask_ref: &Vec<T> = match &mask {
        Option::Some(m) => &m.data,
        Option::None => &empty,
    };
    let sp = g.out_h * g.out_w;
    let c_out = g.c_out;
    // Bias gradient: the output gradient summed per output channel.
    let bias_grad: Option<Vec<T>> = match &bias {
        Option::Some(_) => {
            let mut bg = zeros(zero, c_out);
            let ghost init = bg@;
            let ghost events = bias_grad_events(output_grad.data@, c_out as int, sp as int);
            proof {
                lemma_scatters_to_empty(*add_fn, init);
                assert(events.take(0) =~= Seq::<Option<(int, T)>>::empty());
            }
            let mut t: usize = 0;
            while t < output_grad.data.len()
                invariant
                    t <= output_grad.data@.len(),
                    output_grad.data@.len() == g.batch * c_out * sp,
                    bg@.len() == c_out,
                    events == bias_grad_events(output_grad.data@, c_out as int, sp as int),
                    forall|a: T, c: T| call_requires(*add_fn, (a, c)),
                    scatters_to(*add_fn, init, events.take(t as int), bg@),
                decreases output_grad.data@.len() - t,
            {
                proof {
                    assert(sp > 0 && c_out > 0) by (nonlinear_arith)
                        requires t < g.batch * c_out * sp, g.batch >= 0, c_out >= 0, sp >= 0;
                }
                let pos = (t / sp) % c_out;
                let v = output_grad.data[t];
                proof {
                    assert(events[t as int] == Option::Some((pos as int, v)));
                    assert(events.take(t as int).push(Option::Some((pos as int, v))) =~= events.take(t + 1));
                }
                scatter_add(&mut bg, pos, v, add_fn, Ghost(init), Ghost(events.take(t as int)));
                t = t + 1;
            }
            proof {
                assert(events.take(output_grad.data@.len() as int) =~= events);
            }
            Option::Some(bg)
        },
        Option::None => Option::None,
    };
    // The steps.
    let mut x_grad = zeros(zero, x.data.len());
    let mut offset_grad = zeros(zero, offset.data.len());
    let mut weight_grad = zeros(zero, weight.data.len());
    let mut mask_grad = zeros(zero, mask_ref.len());
    let ghost inits = (x_grad@, offset_grad@, weight_grad@, mask_grad@);
    let ghost mut recs: Seq<StepRecord<T>> = Seq::empty();
    proof {
        lemma_scatters_to_empty(*add_fn, inits.0);
        lemma_scatters_to_empty(*add_fn, inits.1);
        lemma_scatters_to_empty(*add_fn, inits.2);
        lemma_scatters_to_empty(*add_fn, inits.3);
        assert(input_events(g, recs) =~= Seq::<Option<(int, T)>>::empty());
        assert(offset_events(g, recs) =~= Seq::<Option<(int, T)>>::empty());
        assert(weight_events(g, recs) =~= Seq::<Option<(int, T)>>::empty());
        assert(mask_events(g, true, recs) =~= Seq::<Option<(int, T)>>::empty());
    }
    let total_p = output_grad.data.len();
    let taps = g.kh * g.kw;
    proof {
        assert(g.col_len() == g.icpg * taps) by (nonlinear_arith)
            requires taps == g.kh * g.kw;
    }
    let col_len = g.icpg * taps;
    let mut p: usize = 0;
    while p < total_p
        invariant
            p <= total_p,
            total_p == g.batch * g.c_out * g.spatial(),
            g.valid(),
            sp == g.spatial(),
            c_out == g.c_out,
            taps == g.taps(),
            col_len == g.col_len(),
            col_len == g.icpg * taps,
            x.data@.len() == g.batch * g.c_in * g.in_h * g.in_w,
            offset.data@.len() == g.batch * g.off_c * g.spatial(),
            weight.data@.len() == g.c_out * g.icpg * g.kh * g.kw,
            output_grad.data@.len() == total_p,
            has_mask == mask is Some,
            has_mask ==> mask_ref@ == mask->0.data@,
            has_mask ==> mask_ref@.len() == g.batch * g.offset_groups * g.taps() * g.spatial(),
            deform_backward_ops_ready(*sample, *sample_backward, *mul_fn, *add_fn),
            inits.0 == Seq::new(x.data@.len(), |i: int| zero),
            inits.1 == Seq::new(offset.data@.len(), |i: int| zero),
            inits.2 == Seq::new(weight.data@.len(), |i: int| zero),
            inits.3 == Seq::new(mask_ref@.len(), |i: int| zero),
            x_grad@.len() == x.data@.len(),
            offset_grad@.len() == offset.data@.len(),
            weight_grad@.len() == weight.data@.len(),
            mask_grad@.len() == mask_ref@.len(),
            recs.len() == p * col_len,
            forall|n: int| 0 <= n < recs.len() ==> #[trigger] step_ok(
                *sample,
                *sample_backward,
                *mul_fn,
                one,
                x.data@,
                offset.data@,
                present_if(has_mask, mask_ref@),
                weight.data@,
                output_grad.data@,
                g,
                n,
                recs[n],
            ),
            scatters_to(*add_fn, inits.0, input_events(g, recs), x_grad@),
            scatters_to(*add_fn, inits.1, offset_events(g, recs), offset_grad@),
            scatters_to(*add_fn, inits.2, weight_events(g, recs), weight_grad@),
            has_mask ==> scatters_to(*add_fn, inits.3, mask_events(g, true, recs), mask_grad@),
        decreases total_p - p,
    {
        proof {
            assert(sp > 0 && c_out > 0 && g.batch > 0) by (nonlinear_arith)
                requires p < g.batch * c_out * sp, g.batch >= 0, c_out >= 0, sp >= 0;
            assert(total_p == g.batch * c_out * sp);
            assert(g.batch * c_out * sp == (g.batch * c_out) * sp) by (nonlinear_arith);
            lemma_div_lt(p as int, (g.batch * c_out) as int, sp as int);
            lemma_div_lt((p / sp) as int, g.batch as int, c_out as int);
        }
        let q = p / sp;
        let s = p % sp;
        let b = q / c_out;
        let oc = q % c_out;
        let mut j: usize = 0;
        while j < col_len
            invariant
                p < total_p,
                j <= col_len,
                total_p == g.batch * g.c_out * g.spatial(),
                g.valid(),
                b < g.batch,
                oc < g.c_out,
                s < g.spatial(),
                b as int == (p as int) / g.spatial() / (g.c_out as int),
                oc as int == ((p as int) / g.spatial()) % (g.c_out as int),
                s as int == (p as int) % g.spatial(),
                sp == g.spatial(),
                c_out == g.c_out,
                taps == g.taps(),
                col_len == g.col_len(),
                col_len == g.icpg * taps,
                x.data@.len() == g.batch * g.c_in * g.in_h * g.in_w,
                offset.data@.len() == g.batch * g.off_c * g.spatial(),
                weight.data@.len() == g.c_out * g.icpg * g.kh * g.kw,
                output_grad.data@.len() == total_p,
                has_mask == mask is Some,
                has_mask ==> mask_ref@ == mask->0.data@,
                has_mask ==> mask_ref@.len() == g.batch * g.offset_groups * g.taps() * g.spatial(),
                deform_backward_ops_ready(*sample, *sample_backward, *mul_fn, *add_fn),
                inits.0 == Seq::new(x.data@.len(), |i: int| zero),
                inits.1 == Seq::new(offset.data@.len(), |i: int| zero),
                inits.2 == Seq::new(weight.data@.len(), |i: int| zero),
                inits.3 == Seq::new(mask_ref@.len(), |i: int| zero),
                x_grad@.len() == x.data@.len(),
                offset_grad@.len() == offset.data@.len(),
                weight_grad@.len() == weight.data@.len(),
                mask_grad@.len() == mask_ref@.len(),
                recs.len() == p * col_len + j,
                forall|n: int| 0 <= n < recs.len() ==> #[trigger] step_ok(
                    *sample,
                    *sample_backward,
                    *mul_fn,
                    one,
                    x.data@,
                    offset.data@,
                    present_if(has_mask, mask_ref@),
                    weight.data@,
                    output_grad.data@,
                    g,
                    n,
                    recs[n],
                ),
                scatters_to(*add_fn, inits.0, input_events(g, recs), x_grad@),
                scatters_to(*add_fn, inits.1, offset_events(g, recs), offset_grad@),
                scatters_to(*add_fn, inits.2, weight_events(g, recs), weight_grad@),
                has_mask ==> scatters_to(*add_fn, inits.3, mask_events(g, true, recs), mask_grad@),
            decreases col_len - j,
        {
            proof {
                assert(g.icpg >= 1 && taps >= 1) by (nonlinear_arith)
                    requires j < col_len, col_len == g.icpg * taps, taps >= 0, g.icpg >= 0;
                assert(col_len == taps * g.icpg) by (nonlinear_arith)
                    requires col_len == g.icpg * taps;
                lemma_div_lt(j as int, g.icpg as int, taps as int);
                lemma_step_coords(g, p as int, j as int);
            }
            let icl = j / taps;
            let k = j % taps;
            let rec = backward_step(
                &x.data,
                &offset.data,
                mask_ref,
                has_mask,
                &weight.data,
                &output_grad.data,
                &g,
                b,
                oc,
                s,
                icl,
                k,
                one,
                sample,
                sample_backward,
                mul_fn,
                add_fn,
                &mut x_grad,
                &mut offset_grad,
                &mut weight_grad,
                &mut mask_grad,
                Ghost(p * col_len + j),
                Ghost(recs),
                Ghost(inits),
            );
            proof {
                let r2 = recs.push(rec@);
                assert forall|n: int| 0 <= n < r2.len() implies #[trigger] step_ok(
                    *sample,
                    *sample_backward,
                    *mul_fn,
                    one,
                    x.data@,
                    offset.data@,
                    present_if(has_mask, mask_ref@),
                    weight.data@,
                    output_grad.data@,
                    g,
                    n,
                    r2[n],
                ) by {
                    if n < recs.len() {
                        assert(r2[n] == recs[n]);
                    }
                }
                recs = r2;
            }
            j = j + 1;
        }
        proof {
            assert(recs.len() == (p + 1) * col_len) by (nonlinear_arith)
                requires recs.len() == p * col_len + col_len;
        }
        p = p + 1;
    }
    proof {
        assert(recs.len() == step_count(g)) by (nonlinear_arith)
            requires recs.len() == total_p * col_len, total_p == g.batch * g.c_out * g.spatial(), col_len == g.icpg * taps,
                taps == g.taps(), step_count(g) == g.batch * g.c_out * g.spatial() * g.icpg * g.taps();
        assert(present_if(has_mask, mask_ref@) == opt_data(mask));
    }
    let x_grad_t = HostTensor { shape: x.shape, data: x_grad, dtype };
    let offset_grad_t = HostTensor { shape: offset.shape, data: offset_grad, dtype };
    let weight_grad_t = HostTensor { shape: weight.shape, data: weight_grad, dtype };
    let mask_grad_t = match mask {
        Option::Some(m) => Option::Some(HostTensor { shape: m.shape, data: mask_grad, dtype }),
        Option::None => Option::None,
    };
    let bias_grad_t = match bias_grad {
        Option::Some(bg) => Option::Some(HostTensor { shape: vec![c_out], data: bg, dtype }),
        Option::None => Option::None,
    };
    let r = (x_grad_t, offset_grad_t, weight_grad_t, mask_grad_t, bias_grad_t);
    proof {
        assert(deform_backward_parts(
            *sample,
            *sample_backward,
            *mul_fn,
            *add_fn,
            zero,
            one,
            x.data@,
            offset.data@,
            opt_data(mask),
            weight.data@,
            output_grad.data@,
            g,
            r.0.data@,
            r.1.data@,
            r.2.data@,
            opt_data(r.3),
            recs,
        ));
    }
    r
}

} // verus!
