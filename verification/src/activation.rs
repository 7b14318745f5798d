//! Softmax along one axis and layer normalization over the last axis of a
//! host tensor.
//!
//! Softmax takes each line along the axis through three passes: a running
//! maximum, the shifted exponentials with their sum, and a rescale by the
//! reciprocal of the sum. Elements are stored as `H` and computed on as `A`
//! (the same type for full-precision storage; a wider one for half
//! precision, with a conversion at each store).
//!
//! Layer normalization takes each row of the last axis through its
//! statistics (mean and inverse standard deviation, from the caller) and
//! then maps every element with the row's statistics, its `gamma` and its
//! `beta`.
use vstd::prelude::*;
use crate::arith::{lemma_div_mod_offset, lemma_offset2};
use crate::fold::{folds_to, lemma_folds_to_empty, lemma_folds_to_push};
use crate::tensor::{DType, HostTensor, shape_numel, lemma_numel_split};

verus! {

/// One step of a running maximum: the candidate `x` replaces the current
/// value exactly when `gt(x, current)` answers true.
pub open spec fn max_candidate_step<A, G: Fn(A, A) -> bool>(gt: G, before: A, x: A, after: A) -> bool {
    ||| (call_ensures(gt, (x, before), true) && after == x)
    ||| (call_ensures(gt, (x, before), false) && after == before)
}

pub open spec fn running_max_trace<A, G: Fn(A, A) -> bool>(gt: G, init: A, xs: Seq<A>, trace: Seq<A>) -> bool {
    &&& trace.len() == xs.len() + 1
    &&& trace[0] == init
    &&& forall|i: int| 0 <= i < xs.len() ==> #[trigger] max_candidate_step(gt, trace[i], xs[i], trace[i + 1])
}

/// `m` is what a running maximum over `xs`, started at `init`, can end at.
pub open spec fn runs_max_to<A, G: Fn(A, A) -> bool>(gt: G, init: A, xs: Seq<A>, m: A) -> bool {
    exists|trace: Seq<A>| #[trigger] running_max_trace(gt, init, xs, trace) && trace.last() == m
}

/// Every element as a present accumulation step.
pub open spec fn all_steps<A>(xs: Seq<A>) -> Seq<Option<A>> {
    Seq::new(xs.len(), |i: int| Option::Some(xs[i]))
}

/// The intermediate values of one softmax line over the computed values
/// `ws`: the maximum `m`, the shifted exponentials `es`, their stored forms
/// `hs`, the sum `s` of `es` in order and its reciprocal `inv`; each output
/// is the rescale of a stored exponential by `inv`.
pub open spec fn softmax_row_parts<H, A, N, G, E, P, R, S>(
    narrow: N,
    gt: G,
    exp_shift: E,
    add_fn: P,
    recip: R,
    rescale: S,
    neg_inf: A,
    zero: A,
    ws: Seq<A>,
    out: Seq<H>,
    m: A,
    es: Seq<A>,
    hs: Seq<H>,
    s: A,
    inv: A,
) -> bool where
    N: Fn(A) -> H,
    G: Fn(A, A) -> bool,
    E: Fn(A, A) -> A,
    P: Fn(A, A) -> A,
    R: Fn(A) -> A,
    S: Fn(H, A) -> H,
 {
    &&& runs_max_to(gt, neg_inf, ws, m)
    &&& es.len() == ws.len()
    &&& hs.len() == ws.len()
    &&& out.len() == ws.len()
    &&& forall|i: int|
        0 <= i < ws.len() ==> {
            &&& call_ensures(exp_shift, (ws[i], m), #[trigger] es[i])
            &&& call_ensures(narrow, (es[i],), hs[i])
            &&& call_ensures(rescale, (hs[i], inv), out[i])
        }
    &&& folds_to(add_fn, zero, all_steps(es), s)
    &&& call_ensures(recip, (s,), inv)
}

/// `out` is a softmax of the computed values `ws`; an empty line gives an
/// empty result and calls no operation.
pub open spec fn softmax_row_result<H, A, N, G, E, P, R, S>(
    narrow: N,
    gt: G,
    exp_shift: E,
    add_fn: P,
    recip: R,
    rescale: S,
    neg_inf: A,
    zero: A,
    ws: Seq<A>,
    out: Seq<H>,
) -> bool where
    N: Fn(A) -> H,
    G: Fn(A, A) -> bool,
    E: Fn(A, A) -> A,
    P: Fn(A, A) -> A,
    R: Fn(A) -> A,
    S: Fn(H, A) -> H,
 {
    &&& out.len() == ws.len()
    &&& ws.len() > 0 ==> exists|m: A, es: Seq<A>, hs: Seq<H>, s: A, inv: A|
        #[trigger] softmax_row_parts(narrow, gt, exp_shift, add_fn, recip, rescale, neg_inf, zero, ws, out, m, es, hs, s, inv)
}

/// The operations of a softmax can be called on any operands.
pub open spec fn softmax_ops_ready<H, A, W, N, G, E, P, R, S>(
    widen: W,
    narrow: N,
    gt: G,
    exp_shift: E,
    add_fn: P,
    recip: R,
    rescale: S,
) -> bool where
    W: Fn(H) -> A,
    N: Fn(A) -> H,
    G: Fn(A, A) -> bool,
    E: Fn(A, A) -> A,
    P: Fn(A, A) -> A,
    R: Fn(A) -> A,
    S: Fn(H, A) -> H,
 {
    &&& forall|h: H| call_requires(widen, (h,))
    &&& forall|a: A| call_requires(narrow, (a,))
    &&& forall|a: A, b: A| call_requires(gt, (a, b))
    &&& forall|a: A, b: A| call_requires(exp_shift, (a, b))
    &&& forall|a: A, b: A| call_requires(add_fn, (a, b))
    &&& forall|a: A| call_requires(recip, (a,))
    &&& forall|h: H, a: A| call_requires(rescale, (h, a))
}

proof fn lemma_running_max_push<A, G: Fn(A, A) -> bool>(
    gt: G,
    init: A,
    xs: Seq<A>,
    trace: Seq<A>,
    x: A,
    m: A,
)
    requires
        running_max_trace(gt, init, xs, trace),
        max_candidate_step(gt, trace.last(), x, m),
    ensures
        running_max_trace(gt, init, xs.push(x), trace.push(m)),
{
    let x2 = xs.push(x);
    let t2 = trace.push(m);
    assert forall|i: int| 0 <= i < x2.len() implies #[trigger] max_candidate_step(gt, t2[i], x2[i], t2[i + 1]) by {
        if i < xs.len() {
            assert(max_candidate_step(gt, trace[i], xs[i], trace[i + 1]));
        }
    }
}

/// One softmax line: running maximum, shifted exponentials stored and
/// summed in order, then every stored value rescaled by the reciprocal of
/// the sum.
fn softmax_row<H: Copy, A: Copy, N, G, E, P, R, S>(
    ws: &Vec<A>,
    neg_inf: A,
    zero: A,
    narrow: &N,
    gt: &G,
    exp_shift: &E,
    add_fn: &P,
    recip: &R,
    rescale: &S,
) -> (out: Vec<H>) where
    N: Fn(A) -> H,
    G: Fn(A, A) -> bool,
    E: Fn(A, A) -> A,
    P: Fn(A, A) -> A,
    R: Fn(A) -> A,
    S: Fn(H, A) -> H,

    requires
        ws.len() > 0,
        forall|a: A| call_requires(*narrow, (a,)),
        forall|a: A, b: A| call_requires(*gt, (a, b)),
        forall|a: A, b: A| call_requires(*exp_shift, (a, b)),
        forall|a: A, b: A| call_requires(*add_fn, (a, b)),
        forall|a: A| call_requires(*recip, (a,)),
        forall|h: H, a: A| call_requires(*rescale, (h, a)),
    ensures
        softmax_row_result(*narrow, *gt, *exp_shift, *add_fn, *recip, *rescale, neg_inf, zero, ws@, out@),
{
    let n = ws.len();
    // Pass 1: the running maximum.
    let mut m = neg_inf;
    let ghost mut trace: Seq<A> = seq![neg_inf];
    let mut i: usize = 0;
    proof {
        assert(ws@.take(0) =~= Seq::<A>::empty());
    }
    while i < n
        invariant
            i <= n,
            n == ws.len(),
            running_max_trace(*gt, neg_inf, ws@.take(i as int), trace),
            trace.last() == m,
            forall|a: A, b: A| call_requires(*gt, (a, b)),
        decreases n - i,
    {
        let x = ws[i];
        let bigger = gt(x, m);
        let ghost before = m;
        if bigger {
            m = x;
        }
        proof {
            assert(max_candidate_step(*gt, before, x, m));
            lemma_running_max_push(*gt, neg_inf, ws@.take(i as int), trace, x, m);
            assert(ws@.take(i as int).push(x) =~= ws@.take(i + 1));
            trace = trace.push(m);
        }
        i = i + 1;
    }
    proof {
        assert(ws@.take(n as int) =~= ws@);
        assert(runs_max_to(*gt, neg_inf, ws@, m));
    }
    // Pass 2: shifted exponentials, stored and summed.
    let mut hs: Vec<H> = Vec::new();
    let ghost mut es: Seq<A> = Seq::empty();
    let mut s = zero;
    proof {
        lemma_folds_to_empty(*add_fn, zero);
        assert(all_steps(es) =~= Seq::<Option<A>>::empty());
    }
    let mut i: usize = 0;
    while i < n
        invariant
            i <= n,
            n == ws.len(),
            hs.len() == i,
            es.len() == i,
            forall|j: int|
                0 <= j < i ==> call_ensures(*exp_shift, (ws@[j], m), #[trigger] es[j])
                    && call_ensures(*narrow, (es[j],), hs@[j]),
            folds_to(*add_fn, zero, all_steps(es), s),
            forall|a: A| call_requires(*narrow, (a,)),
            forall|a: A, b: A| call_requires(*exp_shift, (a, b)),
            forall|a: A, b: A| call_requires(*add_fn, (a, b)),
        decreases n - i,
    {
        let e = exp_shift(ws[i], m);
        let h = narrow(e);
        hs.push(h);
        let s2 = add_fn(s, e);
        proof {
            lemma_folds_to_push(*add_fn, zero, all_steps(es), s, Option::Some(e), s2);
            assert(all_steps(es).push(Option::Some(e)) =~= all_steps(es.push(e)));
            es = es.push(e);
        }
        s = s2;
        i = i + 1;
    }
    // Pass 3: rescale by the reciprocal of the sum.
    let inv = recip(s);
    let mut out: Vec<H> = Vec::new();
    let mut i: usize = 0;
    while i < n
        invariant
            i <= n,
            n == ws.len(),
            hs.len() == n,
            out.len() == i,
            forall|j: int| 0 <= j < i ==> call_ensures(*rescale, (hs@[j], inv), #[trigger] out@[j]),
            forall|h: H, a: A| call_requires(*rescale, (h, a)),
        decreases n - i,
    {
        let v = rescale(hs[i], inv);
        out.push(v);
        i = i + 1;
    }
    proof {
        assert(softmax_row_parts(*narrow, *gt, *exp_shift, *add_fn, *recip, *rescale, neg_inf, zero, ws@, out@, m, es, hs@, s, inv));
    }
    out
}

} // verus!

verus! {

/// The element kinds softmax is defined for.
pub open spec fn is_float_dtype(d: DType) -> bool {
    d == DType::F32 || d == DType::F64 || d == DType::F16 || d == DType::BF16
}

/// The `n` elements of a row-major buffer along one axis, at outer position
/// `o` and inner position `q`, where `post` elements lie between two
/// neighbours on that axis.
pub open spec fn axis_line<T>(data: Seq<T>, n: int, post: int, o: int, q: int) -> Seq<T> {
    Seq::new(n as nat, |k: int| data[(o * n + k) * post + q])
}

/// `ws` holds, position by position, what `widen` returns for `xs`.
pub open spec fn widened<H, A, W: Fn(H) -> A>(widen: W, xs: Seq<H>, ws: Seq<A>) -> bool {
    &&& ws.len() == xs.len()
    &&& forall|i: int| 0 <= i < xs.len() ==> call_ensures(widen, (xs[i],), #[trigger] ws[i])
}

/// `out` is a softmax of the stored line `xs`, computed on its widened values.
pub open spec fn softmax_line_result<H, A, W, N, G, E, P, R, S>(
    widen: W,
    narrow: N,
    gt: G,
    exp_shift: E,
    add_fn: P,
    recip: R,
    rescale: S,
    neg_inf: A,
    zero: A,
    xs: Seq<H>,
    out: Seq<H>,
) -> bool where
    W: Fn(H) -> A,
    N: Fn(A) -> H,
    G: Fn(A, A) -> bool,
    E: Fn(A, A) -> A,
    P: Fn(A, A) -> A,
    R: Fn(A) -> A,
    S: Fn(H, A) -> H,
 {
    exists|ws: Seq<A>|
        #[trigger] widened(widen, xs, ws)
            && softmax_row_result(narrow, gt, exp_shift, add_fn, recip, rescale, neg_inf, zero, ws, out)
}

/// `out` is a softmax of the tensor `x` of shape `shape` along axis `dim`:
/// every line along that axis of `out` is a softmax of the same line of `x`.
pub open spec fn softmax_result<H, A, W, N, G, E, P, R, S>(
    widen: W,
    narrow: N,
    gt: G,
    exp_shift: E,
    add_fn: P,
    recip: R,
    rescale: S,
    neg_inf: A,
    zero: A,
    x: Seq<H>,
    shape: Seq<usize>,
    dim: int,
    out: Seq<H>,
) -> bool where
    W: Fn(H) -> A,
    N: Fn(A) -> H,
    G: Fn(A, A) -> bool,
    E: Fn(A, A) -> A,
    P: Fn(A, A) -> A,
    R: Fn(A) -> A,
    S: Fn(H, A) -> H,
 {
    let n = shape[dim] as int;
    let pre = shape_numel(shape.take(dim)) as int;
    let post = shape_numel(shape.skip(dim + 1)) as int;
    &&& out.len() == x.len()
    &&& forall|o: int, q: int|
        0 <= o < pre && 0 <= q < post ==> #[trigger] softmax_line_result(
            widen,
            narrow,
            gt,
            exp_shift,
            add_fn,
            recip,
            rescale,
            neg_inf,
            zero,
            axis_line(x, n, post, o, q),
            axis_line(out, n, post, o, q),
        )
}

/// Where element `k` of the line at (`o`, `q`) lies, and how division
/// recovers its coordinates.
proof fn lemma_line_pos(o: int, k: int, q: int, pre: int, n: int, post: int)
    requires
        0 <= o < pre,
        0 <= k < n,
        0 <= q < post,
    ensures
        0 <= o * n + k < pre * n,
        pre * n <= pre * n * post,
        0 <= (o * n + k) * post + q < pre * n * post,
        ((o * n + k) * post + q) % post == q,
        ((o * n + k) * post + q) / post == o * n + k,
        ((o * n + k) * post + q) / post / n == o,
        ((o * n + k) * post + q) / post % n == k,
{
    lemma_offset2(o, k, pre, n);
    lemma_offset2(o * n + k, q, pre * n, post);
    lemma_div_mod_offset(o * n + k, q, post);
    lemma_div_mod_offset(o, k, n);
    assert(pre * n <= pre * n * post) by (nonlinear_arith)
        requires pre * n >= 0, post >= 1;
}

/// A leading part of a shape with elements counts no more than the whole.
proof fn lemma_numel_prefix_le(s: Seq<usize>, d: int)
    requires
        0 <= d <= s.len(),
        shape_numel(s) > 0,
    ensures
        0 < shape_numel(s.take(d)) <= shape_numel(s),
{
    crate::tensor::lemma_numel_concat(s.take(d), s.skip(d));
    assert(s.take(d) + s.skip(d) =~= s);
    let a = shape_numel(s.take(d));
    let b = shape_numel(s.skip(d));
    assert(0 < a <= a * b) by (nonlinear_arith)
        requires a * b > 0, a >= 0, b >= 0;
}

/// Softmax of `tensor` along axis `dim`.
///
/// Every line along `dim` is widened element by element, reduced to its
/// running maximum (`gt(x, m)` decides whether `x` replaces `m`), mapped to
/// `exp_shift(x, m)`, which is stored through `narrow` and summed in order
/// with `add_fn` from `zero`; the stored values are then rescaled by
/// `recip` of the sum. A tensor with no element, or whose axis `dim` is
/// empty, comes back unchanged.
pub fn softmax<H: Copy, A: Copy, W, N, G, E, P, R, S>(
    tensor: HostTensor<H>,
    dim: usize,
    neg_inf: A,
    zero: A,
    widen: &W,
    narrow: &N,
    gt: &G,
    exp_shift: &E,
    add_fn: &P,
    recip: &R,
    rescale: &S,
) -> (r: HostTensor<H>) where
    W: Fn(H) -> A,
    N: Fn(A) -> H,
    G: Fn(A, A) -> bool,
    E: Fn(A, A) -> A,
    P: Fn(A, A) -> A,
    R: Fn(A) -> A,
    S: Fn(H, A) -> H,

    requires
        tensor.wf(),
        dim < tensor.shape.len(),
        is_float_dtype(tensor.dtype),
        softmax_ops_ready(*widen, *narrow, *gt, *exp_shift, *add_fn, *recip, *rescale),
    ensures
        r.shape@ == tensor.shape@,
        r.dtype == tensor.dtype,
        r.wf(),
        softmax_result(
            *widen,
            *narrow,
            *gt,
            *exp_shift,
            *add_fn,
            *recip,
            *rescale,
            neg_inf,
            zero,
            tensor.data@,
            tensor.shape@,
            dim as int,
            r.data@,
        ),
{
    let total = tensor.data.len();
    let n = tensor.shape[dim];
    let ghost shape = tensor.shape@;
    let ghost pre_g = shape_numel(shape.take(dim as int)) as int;
    let ghost post_g = shape_numel(shape.skip(dim + 1)) as int;
    proof {
        lemma_numel_split(shape, dim as int);
        assert(total == pre_g * n * post_g);
    }
    if n == 0 || total == 0 {
        proof {
            assert forall|o: int, q: int| 0 <= o < pre_g && 0 <= q < post_g implies #[trigger] softmax_line_result(
                *widen,
                *narrow,
                *gt,
                *exp_shift,
                *add_fn,
                *recip,
                *rescale,
                neg_inf,
                zero,
                axis_line(tensor.data@, n as int, post_g, o, q),
                axis_line(tensor.data@, n as int, post_g, o, q),
            ) by {
                if n == 0 {
                    assert(widened(*widen, axis_line(tensor.data@, n as int, post_g, o, q), Seq::<A>::empty()));
                } else {
                    assert(pre_g * n * post_g >= 1) by (nonlinear_arith)
                        requires pre_g >= 1, n >= 1, post_g >= 1;
                }
            }
        }
        return tensor;
    }
    // The count of positions before the axis.
    let mut pre: usize = 1;
    let mut i: usize = 0;
    proof {
        reveal_with_fuel(shape_numel, 1);
        assert(shape.take(0) =~= Seq::<usize>::empty());
    }
    while i < dim
        invariant
            i <= dim,
            dim < shape.len(),
            shape == tensor.shape@,
            pre == shape_numel(shape.take(i as int)),
            total == shape_numel(shape),
            total > 0,
        decreases dim - i,
    {
        proof {
            lemma_numel_prefix_le(shape, i + 1);
            assert(shape.take(i + 1).drop_last() =~= shape.take(i as int));
        }
        pre = pre * tensor.shape[i];
        i = i + 1;
    }
    proof {
        lemma_numel_prefix_le(shape, dim as int);
        assert(pre == pre_g);
        assert(pre * n >= 1) by (nonlinear_arith)
            requires pre >= 1, n >= 1;
        assert(post_g >= 1) by (nonlinear_arith)
            requires total == pre_g * n * post_g, total > 0, post_g >= 0, pre_g >= 0, n >= 0;
        assert(pre * n <= total) by (nonlinear_arith)
            requires total == pre * n * post_g, post_g >= 1, pre >= 0, n >= 0;
    }
    let pn = pre * n;
    let post = total / pn;
    proof {
        assert(post_g * pn + 0 == total) by (nonlinear_arith)
            requires total == pre * n * post_g, pn == pre * n;
        lemma_div_mod_offset(post_g, 0, pn as int);
        assert(post == post_g);
        assert(pre * post <= total) by (nonlinear_arith)
            requires total == pre * n * post, n >= 1, pre >= 0, post >= 0;
    }
    let lines = pre * post;
    let mut out: Vec<H> = tensor.data.clone();
    let mut l: usize = 0;
    while l < lines
        invariant
            l <= lines,
            lines == pre * post,
            total == pre * n * post,
            total == tensor.data.len(),
            out.len() == total,
            n >= 1,
            post >= 1,
            softmax_ops_ready(*widen, *narrow, *gt, *exp_shift, *add_fn, *recip, *rescale),
            forall|l2: int|
                0 <= l2 < l ==> #[trigger] softmax_line_result(
                    *widen,
                    *narrow,
                    *gt,
                    *exp_shift,
                    *add_fn,
                    *recip,
                    *rescale,
                    neg_inf,
                    zero,
                    axis_line(tensor.data@, n as int, post as int, l2 / post as int, l2 % post as int),
                    axis_line(out@, n as int, post as int, l2 / post as int, l2 % post as int),
                ),
        decreases lines - l,
    {
        let o = l / post;
        let q = l % post;
        proof {
            crate::arith::lemma_div_lt(l as int, pre as int, post as int);
        }
        // Gather the widened line.
        let mut ws: Vec<A> = Vec::new();
        let mut k: usize = 0;
        while k < n
            invariant
                k <= n,
                o < pre,
                q < post,
                total == pre * n * post,
                total == tensor.data.len(),
                ws.len() == k,
                forall|h: H| call_requires(*widen, (h,)),
                forall|k2: int|
                    0 <= k2 < k ==> call_ensures(
                        *widen,
                        (tensor.data@[(o * n + k2) * post + q],),
                        #[trigger] ws@[k2],
                    ),
            decreases n - k,
        {
            proof {
                lemma_line_pos(o as int, k as int, q as int, pre as int, n as int, post as int);
            }
            let idx = (o * n + k) * post + q;
            let w = widen(tensor.data[idx]);
            ws.push(w);
            k = k + 1;
        }
        proof {
            assert(widened(*widen, axis_line(tensor.data@, n as int, post as int, o as int, q as int), ws@));
        }
        let res = softmax_row(&ws, neg_inf, zero, narrow, gt, exp_shift, add_fn, recip, rescale);
        // Scatter the result back along the axis.
        let ghost before = out@;
        let mut k: usize = 0;
        while k < n
            invariant
                k <= n,
                o < pre,
                q < post,
                total == pre * n * post,
                out.len() == total,
                res.len() == n,
                before.len() == total,
                forall|k2: int| 0 <= k2 < k ==> out@[(o * n + k2) * post + q] == #[trigger] res@[k2],
                forall|j: int|
                    0 <= j < total && (j % post as int != q || j / post as int / n as int != o)
                        ==> out@[j] == #[trigger] before[j],
            decreases n - k,
        {
            proof {
                lemma_line_pos(o as int, k as int, q as int, pre as int, n as int, post as int);
            }
            let idx = (o * n + k) * post + q;
            let ghost prev = out@;
            out.set(idx, res[k]);
            proof {
                assert forall|k2: int| 0 <= k2 < k + 1 implies out@[(o * n + k2) * post + q] == #[trigger] res@[k2] by {
                    lemma_line_pos(o as int, k2, q as int, pre as int, n as int, post as int);
                    if k2 < k {
                        assert(prev[(o * n + k2) * post + q] == res@[k2]);
                    }
                }
            }
            k = k + 1;
        }
        proof {
            assert(axis_line(out@, n as int, post as int, o as int, q as int) =~= res@) by {
                assert forall|k2: int| 0 <= k2 < n implies #[trigger] axis_line(out@, n as int, post as int, o as int, q as int)[k2] == res@[k2] by {
                    assert(out@[(o * n + k2) * post + q] == res@[k2]);
                }
            }
            assert(softmax_line_result(
                *widen,
                *narrow,
                *gt,
                *exp_shift,
                *add_fn,
                *recip,
                *rescale,
                neg_inf,
                zero,
                axis_line(tensor.data@, n as int, post as int, o as int, q as int),
                axis_line(out@, n as int, post as int, o as int, q as int),
            ));
            assert forall|l2: int| 0 <= l2 < l + 1 implies #[trigger] softmax_line_result(
                *widen,
                *narrow,
                *gt,
                *exp_shift,
                *add_fn,
                *recip,
                *rescale,
                neg_inf,
                zero,
                axis_line(tensor.data@, n as int, post as int, l2 / post as int, l2 % post as int),
                axis_line(out@, n as int, post as int, l2 / post as int, l2 % post as int),
            ) by {
                if l2 < l {
                    let o2 = l2 / post as int;
                    let q2 = l2 % post as int;
                    crate::arith::lemma_div_lt(l2, pre as int, post as int);
                    assert(o2 != o || q2 != q);
                    assert forall|k2: int| 0 <= k2 < n implies #[trigger] axis_line(out@, n as int, post as int, o2, q2)[k2]
                        == axis_line(before, n as int, post as int, o2, q2)[k2] by {
                        lemma_line_pos(o2, k2, q2, pre as int, n as int, post as int);
                        let j = (o2 * n + k2) * post + q2;
                        assert(before[j] == out@[j]);
                    }
                    assert(axis_line(out@, n as int, post as int, o2, q2) =~= axis_line(before, n as int, post as int, o2, q2));
                } else {
                    assert(l2 == l);
                }
            }
        }
        l = l + 1;
    }
    proof {
        assert forall|o2: int, q2: int| 0 <= o2 < pre_g && 0 <= q2 < post_g implies #[trigger] softmax_line_result(
            *widen,
            *narrow,
            *gt,
            *exp_shift,
            *add_fn,
            *recip,
            *rescale,
            neg_inf,
            zero,
            axis_line(tensor.data@, n as int, post_g, o2, q2),
            axis_line(out@, n as int, post_g, o2, q2),
        ) by {
            let l2 = o2 * post + q2;
            lemma_offset2(o2, q2, pre as int, post as int);
            lemma_div_mod_offset(o2, q2, post as int);
            assert(l2 / post as int == o2 && l2 % post as int == q2);
        }
    }
    HostTensor { shape: tensor.shape, data: out, dtype: tensor.dtype }
}

} // verus!

verus! {

/// Row `r` of a buffer with rows of `d` elements.
pub open spec fn row_of<T>(s: Seq<T>, d: int, r: int) -> Seq<T> {
    s.subrange(r * d, r * d + d)
}

/// `out` is the layer norm of the row `xrow`: the statistics `(mean,
/// inv_std)` that `stats` returned for the row and `epsilon`, then every
/// element through `normalize(x, mean, inv_std, gamma)`, plus its `beta`
/// entry when there is one.
pub open spec fn layer_norm_row_ok<T, S, N, A>(
    stats: S,
    normalize: N,
    add_fn: A,
    epsilon: T,
    xrow: Seq<T>,
    gamma: Seq<T>,
    beta: Option<Seq<T>>,
    out: Seq<T>,
) -> bool where
    S: Fn(&[T], T) -> (T, T),
    N: Fn(T, T, T, T) -> T,
    A: Fn(T, T) -> T,
 {
    exists|a: &[T], st: (T, T)|
        #[trigger] call_ensures(stats, (a, epsilon), st) && a@ == xrow && out.len() == xrow.len() && forall|i: int|
            0 <= i < xrow.len() ==> #[trigger] layer_norm_elem(
                normalize,
                add_fn,
                xrow[i],
                st,
                gamma[i],
                crate::attention::score::bias_at(beta, i),
                out[i],
            )
}

/// `o` is `normalize(x, mean, inv_std, g)`, plus `b` when there is one.
pub open spec fn layer_norm_elem<T, N: Fn(T, T, T, T) -> T, A: Fn(T, T) -> T>(
    normalize: N,
    add_fn: A,
    x: T,
    st: (T, T),
    g: T,
    b: Option<T>,
    o: T,
) -> bool {
    exists|v: T|
        #[trigger] call_ensures(normalize, (x, st.0, st.1, g), v) && match b {
            Option::Some(bv) => call_ensures(add_fn, (v, bv), o),
            Option::None => o == v,
        }
}

/// `out` is the layer norm of `x` over its last axis of `d` elements.
pub open spec fn layer_norm_result<T, S, N, A>(
    stats: S,
    normalize: N,
    add_fn: A,
    epsilon: T,
    x: Seq<T>,
    d: int,
    gamma: Seq<T>,
    beta: Option<Seq<T>>,
    out: Seq<T>,
) -> bool where
    S: Fn(&[T], T) -> (T, T),
    N: Fn(T, T, T, T) -> T,
    A: Fn(T, T) -> T,
 {
    &&& out.len() == x.len()
    &&& d > 0 ==> forall|r: int|
        0 <= r < (x.len() as int) / d ==> #[trigger] layer_norm_row_ok(
            stats,
            normalize,
            add_fn,
            epsilon,
            row_of(x, d, r),
            gamma,
            beta,
            row_of(out, d, r),
        )
}

/// Layer normalization over the last axis: each row's statistics from
/// `stats(row, epsilon)` as `(mean, inv_std)`, each element mapped by
/// `normalize(x, mean, inv_std, gamma)` and shifted by `beta` with `add_fn`
/// when there is a `beta`. An empty last axis gives the input back.
pub fn layer_norm<T: Copy, S, N, A>(
    input: HostTensor<T>,
    gamma: HostTensor<T>,
    beta: Option<HostTensor<T>>,
    epsilon: T,
    stats: &S,
    normalize: &N,
    add_fn: &A,
) -> (r: HostTensor<T>) where
    S: Fn(&[T], T) -> (T, T),
    N: Fn(T, T, T, T) -> T,
    A: Fn(T, T) -> T,

    requires
        input.wf(),
        input.shape@.len() >= 1,
        is_float_dtype(input.dtype),
        gamma.dtype == input.dtype,
        gamma.shape@ == seq![input.shape@.last()],
        gamma.data@.len() == input.shape@.last(),
        match beta {
            Option::Some(b) => b.dtype == input.dtype && b.shape@ == seq![input.shape@.last()] && b.data@.len()
                == input.shape@.last(),
            Option::None => true,
        },
        forall|a: &[T], e: T| call_requires(*stats, (a, e)),
        forall|x: T, m: T, v: T, g: T| call_requires(*normalize, (x, m, v, g)),
        forall|a: T, b: T| call_requires(*add_fn, (a, b)),
    ensures
        r.shape@ == input.shape@,
        r.dtype == input.dtype,
        r.wf(),
        layer_norm_result(
            *stats,
            *normalize,
            *add_fn,
            epsilon,
            input.data@,
            input.shape@.last() as int,
            gamma.data@,
            crate::conv::bias_data(beta),
            r.data@,
        ),
{
    let d = input.shape[input.shape.len() - 1];
    if d == 0 {
        return input;
    }
    let ghost x = input.data@;
    let ghost bview = crate::conv::bias_data(beta);
    proof {
        let s = input.shape@;
        crate::tensor::lemma_numel_concat(s.drop_last(), seq![s.last()]);
        assert(s.drop_last() + seq![s.last()] =~= s);
        reveal_with_fuel(shape_numel, 2);
        assert(seq![s.last()].drop_last() =~= Seq::<usize>::empty());
        assert(x.len() == shape_numel(s.drop_last()) * (d as nat));
    }
    let rows = input.data.len() / d;
    proof {
        lemma_div_mod_offset(shape_numel(input.shape@.drop_last()) as int, 0, d as int);
        assert(rows * d == x.len()) by (nonlinear_arith)
            requires rows == shape_numel(input.shape@.drop_last()), x.len() == shape_numel(input.shape@.drop_last()) * d;
    }
    let mut out: Vec<T> = Vec::new();
    let mut r: usize = 0;
    while r < rows
        invariant
            r <= rows,
            rows * d == x.len(),
            x == input.data@,
            d > 0,
            gamma.data@.len() == d,
            bview == crate::conv::bias_data(beta),
            bview is Some ==> bview->0.len() == d,
            rows == (x.len() as int) / (d as int),
            forall|a: &[T], e: T| call_requires(*stats, (a, e)),
            forall|xx: T, m: T, v: T, g: T| call_requires(*normalize, (xx, m, v, g)),
            forall|a: T, b: T| call_requires(*add_fn, (a, b)),
            out@.len() == r * d,
            forall|r2: int| 0 <= r2 < r ==> #[trigger] layer_norm_row_ok(
                *stats,
                *normalize,
                *add_fn,
                epsilon,
                row_of(x, d as int, r2),
                gamma.data@,
                bview,
                row_of(out@, d as int, r2),
            ),
        decreases rows - r,
    {
        proof {
            assert(r * d + d <= rows * d) by (nonlinear_arith)
                requires r < rows, d >= 0;
            assert(0 <= r * d) by (nonlinear_arith)
                requires r >= 0, d >= 0;
        }
        let _xl = input.data.len();
        let row = vstd::slice::slice_subrange(input.data.as_slice(), r * d, r * d + d);
        let st = stats(row, epsilon);
        let mut out_row: Vec<T> = Vec::new();
        let mut i: usize = 0;
        while i < d
            invariant
                i <= d,
                row@.len() == d,
                gamma.data@.len() == d,
                bview == crate::conv::bias_data(beta),
                bview is Some ==> bview->0.len() == d,
                forall|xx: T, m: T, v: T, g: T| call_requires(*normalize, (xx, m, v, g)),
                forall|a: T, b: T| call_requires(*add_fn, (a, b)),
                out_row@.len() == i,
                forall|j: int| 0 <= j < i ==> #[trigger] layer_norm_elem(
                    *normalize,
                    *add_fn,
                    row@[j],
                    st,
                    gamma.data@[j],
                    crate::attention::score::bias_at(bview, j),
                    out_row@[j],
                ),
            decreases d - i,
        {
            let v = normalize(row[i], st.0, st.1, gamma.data[i]);
            let o = match &beta {
                Option::Some(b) => add_fn(v, b.data[i]),
                Option::None => v,
            };
            out_row.push(o);
            proof {
                assert(layer_norm_elem(
                    *normalize,
                    *add_fn,
                    row@[i as int],
                    st,
                    gamma.data@[i as int],
                    crate::attention::score::bias_at(bview, i as int),
                    o,
                ));
            }
            i = i + 1;
        }
        let ghost before = out@;
        let ghost row_v = out_row@;
        out.append(&mut out_row);
        proof {
            assert(row_of(x, d as int, r as int) =~= row@);
            assert(row_of(out@, d as int, r as int) =~= row_v);
            assert(layer_norm_row_ok(*stats, *normalize, *add_fn, epsilon, row@, gamma.data@, bview, row_v));
            assert forall|r2: int| 0 <= r2 < r implies #[trigger] row_of(out@, d as int, r2) == row_of(before, d as int, r2) by {
                assert(r2 * d + d <= r * d) by (nonlinear_arith)
                    requires r2 < r, d >= 0;
                assert(0 <= r2 * d) by (nonlinear_arith)
                    requires r2 >= 0, d >= 0;
                assert(row_of(out@, d as int, r2) =~= row_of(before, d as int, r2));
            }
            assert(out@.len() == (r + 1) * d) by (nonlinear_arith)
                requires out@.len() == r * d + d;
        }
        r = r + 1;
    }
    HostTensor { shape: input.shape, data: out, dtype: input.dtype }
}

} // verus!
