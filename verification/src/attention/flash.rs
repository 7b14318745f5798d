//! The flash strategy: keys and values in tiles of `TILE_KV`, with a
//! running maximum, a running sum and an output accumulator per query row
//! that each tile rescales and extends (online softmax).
use vstd::prelude::*;
use vstd::slice::slice_subrange;
use crate::activation::{all_steps, runs_max_to};
use crate::fold::{folds_to, lemma_folds_to_empty, lemma_folds_to_push};
use crate::pool::ceil_div;
use super::{AttentionParams, TILE_KV};
use super::naive::mat_row;
use super::score::{gemm_ready, opt_view, product_of, row_values, transform_row};

verus! {

/// First key position of tile `t`.
pub open spec fn kv_tile_start(t: int) -> int {
    t * TILE_KV
}

/// Length of tile `t` of `seq_kv` keys: `TILE_KV`, or what is left.
pub open spec fn kv_tile_len(seq_kv: int, t: int) -> int {
    if seq_kv - t * TILE_KV < TILE_KV {
        seq_kv - t * TILE_KV
    } else {
        TILE_KV as int
    }
}

/// The online-softmax update of one query row by a tile whose transformed
/// scores `vals` reach some position (their maximum `tmax` is not
/// `neg_inf`): the new maximum `m1` is the larger of `m0` and `tmax`, the
/// tile's weights `prow` are `exp_shift(val, m1)`, the accumulator `o0` and
/// the sum `s0` are rescaled by the correction (`zero` when `m0` is
/// `neg_inf`, `exp_shift(m0, m1)` otherwise) and the sum gains the tile's
/// weights in order.
pub open spec fn online_update<T, G, Q, E, P, M>(
    gt: G,
    eq: Q,
    exp_shift: E,
    add_fn: P,
    mul_fn: M,
    neg_inf: T,
    zero: T,
    vals: Seq<T>,
    tmax: T,
    m0: T,
    s0: T,
    o0: Seq<T>,
    prow: Seq<T>,
    m1: T,
    s1: T,
    o1: Seq<T>,
    tsum: T,
    corr: T,
    scaled: T,
) -> bool where
    G: Fn(T, T) -> bool,
    Q: Fn(T, T) -> bool,
    E: Fn(T, T) -> T,
    P: Fn(T, T) -> T,
    M: Fn(T, T) -> T,
 {
    &&& ((call_ensures(gt, (m0, tmax), true) && m1 == m0) || (call_ensures(gt, (m0, tmax), false) && m1 == tmax))
    &&& prow.len() == vals.len()
    &&& forall|j: int| 0 <= j < vals.len() ==> call_ensures(exp_shift, (vals[j], m1), #[trigger] prow[j])
    &&& folds_to(add_fn, zero, all_steps(prow), tsum)
    &&& ((call_ensures(eq, (m0, neg_inf), true) && corr == zero) || (call_ensures(eq, (m0, neg_inf), false)
        && call_ensures(exp_shift, (m0, m1), corr)))
    &&& o1.len() == o0.len()
    &&& forall|c: int| 0 <= c < o0.len() ==> call_ensures(mul_fn, (o0[c], corr), #[trigger] o1[c])
    &&& call_ensures(mul_fn, (s0, corr), scaled)
    &&& call_ensures(add_fn, (scaled, tsum), s1)
}

/// What a tile does to query row `qi`: from the raw scores `srow` of the
/// tile starting at key `kv_start`, the weights `prow` handed to the value
/// product and the row state going from `(m0, s0, o0)` to `(m1, s1, o1)`.
/// A tile in which every position is hidden gives zero weights and leaves
/// the state as it was.
pub open spec fn flash_row_step<T, M, C, P, G, Q, E>(
    mul_fn: M,
    softcap_fn: C,
    add_fn: P,
    gt: G,
    eq: Q,
    exp_shift: E,
    p: AttentionParams<T>,
    neg_inf: T,
    zero: T,
    mask: Option<Seq<u8>>,
    bias: Option<Seq<T>>,
    qi: int,
    kv_start: int,
    srow: Seq<T>,
    prow: Seq<T>,
    m0: T,
    s0: T,
    o0: Seq<T>,
    m1: T,
    s1: T,
    o1: Seq<T>,
) -> bool where
    M: Fn(T, T) -> T,
    C: Fn(T, T) -> T,
    P: Fn(T, T) -> T,
    G: Fn(T, T) -> bool,
    Q: Fn(T, T) -> bool,
    E: Fn(T, T) -> T,
 {
    exists|vals: Seq<T>, tmax: T|
        #[trigger] row_values(
            mul_fn,
            softcap_fn,
            add_fn,
            p.scale,
            p.softcap,
            neg_inf,
            p.causal,
            p.seq_q as int,
            p.seq_kv as int,
            mask,
            bias,
            qi,
            kv_start,
            srow,
            vals,
        ) && #[trigger] runs_max_to(gt, neg_inf, vals, tmax) && {
            ||| (call_ensures(eq, (tmax, neg_inf), true) && prow == Seq::new(srow.len(), |j: int| zero) && m1 == m0
                && s1 == s0 && o1 == o0)
            ||| (call_ensures(eq, (tmax, neg_inf), false) && exists|tsum: T, corr: T, scaled: T|
                #[trigger] online_update(
                    gt,
                    eq,
                    exp_shift,
                    add_fn,
                    mul_fn,
                    neg_inf,
                    zero,
                    vals,
                    tmax,
                    m0,
                    s0,
                    o0,
                    prow,
                    m1,
                    s1,
                    o1,
                    tsum,
                    corr,
                    scaled,
                ))
        }
}

/// The intermediate values of tile `t`: the raw `scores` that `gemm_nt`
/// returned for `Q` and the tile's keys, the weights `probs`, the rescaled
/// accumulator `mid`, and the product `prod` that `gemm_nn` returned for
/// `probs` and the tile's values; the state goes from `before` to `after`
/// (row maxima, row sums, accumulator), the accumulator gaining `prod`
/// element by element.
pub open spec fn flash_tile_parts<T, M, C, P, G, Q, E, NT, NN>(
    gemm_nt: NT,
    gemm_nn: NN,
    mul_fn: M,
    softcap_fn: C,
    add_fn: P,
    gt: G,
    eq: Q,
    exp_shift: E,
    p: AttentionParams<T>,
    neg_inf: T,
    zero: T,
    q: Seq<T>,
    k: Seq<T>,
    v: Seq<T>,
    mask: Option<Seq<u8>>,
    bias: Option<Seq<T>>,
    t: int,
    before: (Seq<T>, Seq<T>, Seq<T>),
    after: (Seq<T>, Seq<T>, Seq<T>),
    scores: Seq<T>,
    probs: Seq<T>,
    mid: Seq<T>,
    prod: Seq<T>,
) -> bool where
    M: Fn(T, T) -> T,
    C: Fn(T, T) -> T,
    P: Fn(T, T) -> T,
    G: Fn(T, T) -> bool,
    Q: Fn(T, T) -> bool,
    E: Fn(T, T) -> T,
    NT: Fn(&[T], &[T], usize, usize, usize) -> Vec<T>,
    NN: Fn(&[T], &[T], usize, usize, usize) -> Vec<T>,
 {
    let ks = kv_tile_start(t);
    let tl = kv_tile_len(p.seq_kv as int, t);
    let d = p.head_dim as int;
    let vd = p.val_dim as int;
    &&& product_of(gemm_nt, q, k.subrange(ks * d, (ks + tl) * d), p.seq_q as int, d, tl, scores)
    &&& probs.len() == p.seq_q * tl
    &&& mid.len() == p.seq_q * vd
    &&& after.0.len() == p.seq_q
    &&& after.1.len() == p.seq_q
    &&& forall|qi: int|
        0 <= qi < p.seq_q ==> #[trigger] flash_row_step(
            mul_fn,
            softcap_fn,
            add_fn,
            gt,
            eq,
            exp_shift,
            p,
            neg_inf,
            zero,
            mask,
            bias,
            qi,
            ks,
            mat_row(scores, tl, qi),
            mat_row(probs, tl, qi),
            before.0[qi],
            before.1[qi],
            mat_row(before.2, vd, qi),
            after.0[qi],
            after.1[qi],
            mat_row(mid, vd, qi),
        )
    &&& product_of(gemm_nn, probs, v.subrange(ks * vd, (ks + tl) * vd), p.seq_q as int, tl, vd, prod)
    &&& after.2.len() == mid.len()
    &&& forall|i: int| 0 <= i < mid.len() ==> call_ensures(add_fn, (mid[i], prod[i]), #[trigger] after.2[i])
}

pub open spec fn flash_tile_step<T, M, C, P, G, Q, E, NT, NN>(
    gemm_nt: NT,
    gemm_nn: NN,
    mul_fn: M,
    softcap_fn: C,
    add_fn: P,
    gt: G,
    eq: Q,
    exp_shift: E,
    p: AttentionParams<T>,
    neg_inf: T,
    zero: T,
    q: Seq<T>,
    k: Seq<T>,
    v: Seq<T>,
    mask: Option<Seq<u8>>,
    bias: Option<Seq<T>>,
    t: int,
    before: (Seq<T>, Seq<T>, Seq<T>),
    after: (Seq<T>, Seq<T>, Seq<T>),
) -> bool where
    M: Fn(T, T) -> T,
    C: Fn(T, T) -> T,
    P: Fn(T, T) -> T,
    G: Fn(T, T) -> bool,
    Q: Fn(T, T) -> bool,
    E: Fn(T, T) -> T,
    NT: Fn(&[T], &[T], usize, usize, usize) -> Vec<T>,
    NN: Fn(&[T], &[T], usize, usize, usize) -> Vec<T>,
 {
    exists|scores: Seq<T>, probs: Seq<T>, mid: Seq<T>, prod: Seq<T>|
        #[trigger] flash_tile_parts(
            gemm_nt,
            gemm_nn,
            mul_fn,
            softcap_fn,
            add_fn,
            gt,
            eq,
            exp_shift,
            p,
            neg_inf,
            zero,
            q,
            k,
            v,
            mask,
            bias,
            t,
            before,
            after,
            scores,
            probs,
            mid,
            prod,
        )
}

/// The state before the first tile: maxima at `neg_inf`, sums and
/// accumulator at `zero`.
pub open spec fn flash_initial<T>(p: AttentionParams<T>, neg_inf: T, zero: T) -> (Seq<T>, Seq<T>, Seq<T>) {
    (
        Seq::new(p.seq_q as nat, |i: int| neg_inf),
        Seq::new(p.seq_q as nat, |i: int| zero),
        Seq::new((p.seq_q * p.val_dim) as nat, |i: int| zero),
    )
}

/// The final normalization of one row: divided (through `recip` and
/// `mul_fn`) by its sum when `gt` finds the sum above `zero`, left as it is
/// otherwise (every key hidden).
pub open spec fn flash_row_finish<T, G: Fn(T, T) -> bool, R: Fn(T) -> T, M: Fn(T, T) -> T>(
    gt: G,
    recip: R,
    mul_fn: M,
    zero: T,
    s: T,
    orow: Seq<T>,
    out_row: Seq<T>,
) -> bool {
    ||| (call_ensures(gt, (s, zero), false) && out_row == orow)
    ||| (call_ensures(gt, (s, zero), true) && exists|inv: T|
        #[trigger] call_ensures(recip, (s,), inv) && out_row.len() == orow.len() && forall|c: int|
            0 <= c < orow.len() ==> call_ensures(mul_fn, (orow[c], inv), #[trigger] out_row[c]))
}

/// `states` records the flash state before each tile and after the last.
pub open spec fn flash_trace<T, M, C, P, G, Q, E, NT, NN>(
    gemm_nt: NT,
    gemm_nn: NN,
    mul_fn: M,
    softcap_fn: C,
    add_fn: P,
    gt: G,
    eq: Q,
    exp_shift: E,
    p: AttentionParams<T>,
    neg_inf: T,
    zero: T,
    q: Seq<T>,
    k: Seq<T>,
    v: Seq<T>,
    mask: Option<Seq<u8>>,
    bias: Option<Seq<T>>,
    states: Seq<(Seq<T>, Seq<T>, Seq<T>)>,
) -> bool where
    M: Fn(T, T) -> T,
    C: Fn(T, T) -> T,
    P: Fn(T, T) -> T,
    G: Fn(T, T) -> bool,
    Q: Fn(T, T) -> bool,
    E: Fn(T, T) -> T,
    NT: Fn(&[T], &[T], usize, usize, usize) -> Vec<T>,
    NN: Fn(&[T], &[T], usize, usize, usize) -> Vec<T>,
 {
    &&& states.len() == ceil_div(p.seq_kv as int, TILE_KV as int) + 1
    &&& states[0] == flash_initial(p, neg_inf, zero)
    &&& forall|t: int|
        0 <= t < states.len() - 1 ==> #[trigger] flash_tile_step(
            gemm_nt,
            gemm_nn,
            mul_fn,
            softcap_fn,
            add_fn,
            gt,
            eq,
            exp_shift,
            p,
            neg_inf,
            zero,
            q,
            k,
            v,
            mask,
            bias,
            t,
            states[t],
            states[t + 1],
        )
}

/// `out` is what the flash strategy computes for one `(batch, head)` pair:
/// the tiles in order, then every row normalized by its sum.
pub open spec fn flash_head_result<T, M, C, P, G, Q, E, R, NT, NN>(
    gemm_nt: NT,
    gemm_nn: NN,
    mul_fn: M,
    softcap_fn: C,
    add_fn: P,
    gt: G,
    eq: Q,
    exp_shift: E,
    recip: R,
    p: AttentionParams<T>,
    neg_inf: T,
    zero: T,
    q: Seq<T>,
    k: Seq<T>,
    v: Seq<T>,
    mask: Option<Seq<u8>>,
    bias: Option<Seq<T>>,
    out: Seq<T>,
) -> bool where
    M: Fn(T, T) -> T,
    C: Fn(T, T) -> T,
    P: Fn(T, T) -> T,
    G: Fn(T, T) -> bool,
    Q: Fn(T, T) -> bool,
    E: Fn(T, T) -> T,
    R: Fn(T) -> T,
    NT: Fn(&[T], &[T], usize, usize, usize) -> Vec<T>,
    NN: Fn(&[T], &[T], usize, usize, usize) -> Vec<T>,
 {
    exists|states: Seq<(Seq<T>, Seq<T>, Seq<T>)>|
        #[trigger] flash_trace(
            gemm_nt,
            gemm_nn,
            mul_fn,
            softcap_fn,
            add_fn,
            gt,
            eq,
            exp_shift,
            p,
            neg_inf,
            zero,
            q,
            k,
            v,
            mask,
            bias,
            states,
        ) && out.len() == p.seq_q * p.val_dim && forall|qi: int|
            0 <= qi < p.seq_q ==> #[trigger] flash_row_finish(
                gt,
                recip,
                mul_fn,
                zero,
                states.last().1[qi],
                mat_row(states.last().2, p.val_dim as int, qi),
                mat_row(out, p.val_dim as int, qi),
            )
}

} // verus!

verus! {

/// Tile `t` of `seq_kv` keys starts inside the keys and is not empty.
proof fn lemma_kv_tile(seq_kv: int, t: int)
    requires
        0 <= t < ceil_div(seq_kv, TILE_KV as int),
        seq_kv >= 0,
    ensures
        0 <= kv_tile_start(t) < seq_kv,
        1 <= kv_tile_len(seq_kv, t) <= TILE_KV,
        kv_tile_start(t) + kv_tile_len(seq_kv, t) <= seq_kv,
{
    let d = TILE_KV as int;
    vstd::arithmetic::div_mod::lemma_fundamental_div_mod(seq_kv, d);
    assert(0 <= seq_kv % d < d);
    if seq_kv % d == 0 {
        assert(t <= seq_kv / d - 1);
        assert(t * d <= (seq_kv / d - 1) * d) by (nonlinear_arith)
            requires t <= seq_kv / d - 1, d > 0;
        assert((seq_kv / d - 1) * d == d * (seq_kv / d) - d) by (nonlinear_arith);
    } else {
        assert(t <= seq_kv / d);
        assert(t * d <= (seq_kv / d) * d) by (nonlinear_arith)
            requires t <= seq_kv / d, d > 0;
        assert((seq_kv / d) * d == d * (seq_kv / d)) by (nonlinear_arith);
    }
    assert(0 <= t * d) by (nonlinear_arith)
        requires t >= 0, d > 0;
}

/// A copy of a borrowed row.
fn copy_row<T: Copy>(s: &[T]) -> (r: Vec<T>)
    ensures
        r@ == s@,
{
    let mut r: Vec<T> = Vec::new();
    let mut i: usize = 0;
    while i < s.len()
        invariant
            i <= s@.len(),
            r@ == s@.take(i as int),
        decreases s@.len() - i,
    {
        r.push(s[i]);
        i = i + 1;
        proof {
            assert(r@ =~= s@.take(i as int));
        }
    }
    proof {
        assert(s@.take(s@.len() as int) =~= s@);
    }
    r
}

/// One query row through one tile: the tile's weights and the new
/// (maximum, sum, accumulator row) of the row.
fn flash_row_update<T: Copy, M, C, P, G, Q, E>(
    srow: &[T],
    qi: usize,
    kv_start: usize,
    p: &AttentionParams<T>,
    mask: Option<&[u8]>,
    bias: Option<&[T]>,
    m0: T,
    s0: T,
    o0: &[T],
    neg_inf: T,
    zero: T,
    mul_fn: &M,
    softcap_fn: &C,
    add_fn: &P,
    gt: &G,
    eq: &Q,
    exp_shift: &E,
) -> (r: (Vec<T>, T, T, Vec<T>)) where
    M: Fn(T, T) -> T,
    C: Fn(T, T) -> T,
    P: Fn(T, T) -> T,
    G: Fn(T, T) -> bool,
    Q: Fn(T, T) -> bool,
    E: Fn(T, T) -> T,

    requires
        qi < p.seq_q,
        kv_start + srow@.len() <= p.seq_kv,
        p.seq_q + p.seq_kv <= usize::MAX + 1,
        mask is Some ==> mask->0@.len() == p.seq_q * p.seq_kv,
        bias is Some ==> bias->0@.len() == p.seq_q * p.seq_kv,
        forall|a: T, b: T| call_requires(*mul_fn, (a, b)),
        forall|a: T, b: T| call_requires(*softcap_fn, (a, b)),
        forall|a: T, b: T| call_requires(*add_fn, (a, b)),
        forall|a: T, b: T| call_requires(*gt, (a, b)),
        forall|a: T, b: T| call_requires(*eq, (a, b)),
        forall|a: T, b: T| call_requires(*exp_shift, (a, b)),
    ensures
        flash_row_step(
            *mul_fn,
            *softcap_fn,
            *add_fn,
            *gt,
            *eq,
            *exp_shift,
            *p,
            neg_inf,
            zero,
            opt_view(mask),
            opt_view(bias),
            qi as int,
            kv_start as int,
            srow@,
            r.0@,
            m0,
            s0,
            o0@,
            r.1,
            r.2,
            r.3@,
        ),
{
    let (vals, tmax) = transform_row(
        srow,
        qi,
        kv_start,
        p.scale,
        p.softcap,
        p.causal,
        p.seq_q,
        p.seq_kv,
        mask,
        bias,
        neg_inf,
        mul_fn,
        softcap_fn,
        add_fn,
        gt,
    );
    let n = vals.len();
    let all_hidden = eq(tmax, neg_inf);
    if all_hidden {
        // Every position of the tile is hidden: it contributes nothing.
        let mut prow: Vec<T> = Vec::new();
        let mut j: usize = 0;
        while j < n
            invariant
                j <= n,
                prow@ == Seq::new(j as nat, |i: int| zero),
            decreases n - j,
        {
            prow.push(zero);
            j = j + 1;
            proof {
                assert(prow@ =~= Seq::new(j as nat, |i: int| zero));
            }
        }
        let o1 = copy_row(o0);
        return (prow, m0, s0, o1);
    }
    let keep = gt(m0, tmax);
    let m1 = if keep { m0 } else { tmax };
    let mut prow: Vec<T> = Vec::new();
    let mut tsum = zero;
    proof {
        lemma_folds_to_empty(*add_fn, zero);
        assert(all_steps(prow@) =~= Seq::<Option<T>>::empty());
    }
    let mut j: usize = 0;
    while j < n
        invariant
            j <= n,
            n == vals.len(),
            prow.len() == j,
            forall|i: int| 0 <= i < j ==> call_ensures(*exp_shift, (vals@[i], m1), #[trigger] prow@[i]),
            folds_to(*add_fn, zero, all_steps(prow@), tsum),
            forall|a: T, b: T| call_requires(*exp_shift, (a, b)),
            forall|a: T, b: T| call_requires(*add_fn, (a, b)),
        decreases n - j,
    {
        let e = exp_shift(vals[j], m1);
        let t2 = add_fn(tsum, e);
        proof {
            lemma_folds_to_push(*add_fn, zero, all_steps(prow@), tsum, Option::Some(e), t2);
            assert(all_steps(prow@).push(Option::Some(e)) =~= all_steps(prow@.push(e)));
        }
        prow.push(e);
        tsum = t2;
        j = j + 1;
    }
    let first = eq(m0, neg_inf);
    let corr = if first { zero } else { exp_shift(m0, m1) };
    let mut o1: Vec<T> = Vec::new();
    let mut c: usize = 0;
    while c < o0.len()
        invariant
            c <= o0@.len(),
            o1.len() == c,
            forall|i: int| 0 <= i < c ==> call_ensures(*mul_fn, (o0@[i], corr), #[trigger] o1@[i]),
            forall|a: T, b: T| call_requires(*mul_fn, (a, b)),
        decreases o0@.len() - c,
    {
        let w = mul_fn(o0[c], corr);
        o1.push(w);
        c = c + 1;
    }
    let scaled = mul_fn(s0, corr);
    let s1 = add_fn(scaled, tsum);
    proof {
        assert(online_update(
            *gt,
            *eq,
            *exp_shift,
            *add_fn,
            *mul_fn,
            neg_inf,
            zero,
            vals@,
            tmax,
            m0,
            s0,
            o0@,
            prow@,
            m1,
            s1,
            o1@,
            tsum,
            corr,
            scaled,
        ));
    }
    (prow, m1, s1, o1)
}

} // verus!

verus! {

/// Tile `t`: scores of its keys, every query row updated, then the
/// accumulator extended by the product of the weights with its values.
fn flash_tile<T: Copy, M, C, P, G, Q, E, NT, NN>(
    q: &[T],
    k: &[T],
    v: &[T],
    p: &AttentionParams<T>,
    mask: Option<&[u8]>,
    bias: Option<&[T]>,
    t: usize,
    state: (Vec<T>, Vec<T>, Vec<T>),
    neg_inf: T,
    zero: T,
    mul_fn: &M,
    softcap_fn: &C,
    add_fn: &P,
    gt: &G,
    eq: &Q,
    exp_shift: &E,
    gemm_nt: &NT,
    gemm_nn: &NN,
) -> (r: (Vec<T>, Vec<T>, Vec<T>)) where
    M: Fn(T, T) -> T,
    C: Fn(T, T) -> T,
    P: Fn(T, T) -> T,
    G: Fn(T, T) -> bool,
    Q: Fn(T, T) -> bool,
    E: Fn(T, T) -> T,
    NT: Fn(&[T], &[T], usize, usize, usize) -> Vec<T>,
    NN: Fn(&[T], &[T], usize, usize, usize) -> Vec<T>,

    requires
        t < ceil_div(p.seq_kv as int, TILE_KV as int),
        k@.len() == p.seq_kv * p.head_dim,
        v@.len() == p.seq_kv * p.val_dim,
        p.seq_q + p.seq_kv <= usize::MAX + 1,
        mask is Some ==> mask->0@.len() == p.seq_q * p.seq_kv,
        bias is Some ==> bias->0@.len() == p.seq_q * p.seq_kv,
        state.0@.len() == p.seq_q,
        state.1@.len() == p.seq_q,
        state.2@.len() == p.seq_q * p.val_dim,
        forall|a: T, b: T| call_requires(*mul_fn, (a, b)),
        forall|a: T, b: T| call_requires(*softcap_fn, (a, b)),
        forall|a: T, b: T| call_requires(*add_fn, (a, b)),
        forall|a: T, b: T| call_requires(*gt, (a, b)),
        forall|a: T, b: T| call_requires(*eq, (a, b)),
        forall|a: T, b: T| call_requires(*exp_shift, (a, b)),
        gemm_ready(*gemm_nt),
        gemm_ready(*gemm_nn),
    ensures
        r.0@.len() == p.seq_q,
        r.1@.len() == p.seq_q,
        r.2@.len() == p.seq_q * p.val_dim,
        flash_tile_step(
            *gemm_nt,
            *gemm_nn,
            *mul_fn,
            *softcap_fn,
            *add_fn,
            *gt,
            *eq,
            *exp_shift,
            *p,
            neg_inf,
            zero,
            q@,
            k@,
            v@,
            opt_view(mask),
            opt_view(bias),
            t as int,
            (state.0@, state.1@, state.2@),
            (r.0@, r.1@, r.2@),
        ),
{
    let (mut row_max, mut row_sum, acc) = state;
    let ghost before = (row_max@, row_sum@, acc@);
    let seq_q = p.seq_q;
    let seq_kv = p.seq_kv;
    let d = p.head_dim;
    let vd = p.val_dim;
    proof {
        lemma_kv_tile(seq_kv as int, t as int);
    }
    let kv_start = t * TILE_KV;
    let tile_kv = if seq_kv - kv_start < TILE_KV { seq_kv - kv_start } else { TILE_KV };
    proof {
        assert((kv_start + tile_kv) * d <= seq_kv * d) by (nonlinear_arith)
            requires kv_start + tile_kv <= seq_kv, d >= 0;
        assert((kv_start + tile_kv) * vd <= seq_kv * vd) by (nonlinear_arith)
            requires kv_start + tile_kv <= seq_kv, vd >= 0;
        assert(kv_start * d <= (kv_start + tile_kv) * d) by (nonlinear_arith)
            requires tile_kv >= 0, d >= 0;
        assert(kv_start * vd <= (kv_start + tile_kv) * vd) by (nonlinear_arith)
            requires tile_kv >= 0, vd >= 0;
    }
    let _klen = k.len();
    let _vlen = v.len();
    let k_tile = slice_subrange(k, kv_start * d, (kv_start + tile_kv) * d);
    let scores = gemm_nt(q, k_tile, seq_q, d, tile_kv);
    let ghost scores_v = scores;
    let _slen = scores.len();
    let _alen = acc.len();
    let mut probs: Vec<T> = Vec::new();
    let mut mid: Vec<T> = Vec::new();
    let mut qi: usize = 0;
    while qi < seq_q
        invariant
            qi <= seq_q,
            seq_q == p.seq_q,
            seq_kv == p.seq_kv,
            vd == p.val_dim,
            kv_start == kv_tile_start(t as int),
            tile_kv == kv_tile_len(seq_kv as int, t as int),
            kv_start + tile_kv <= seq_kv,
            scores@.len() == seq_q * tile_kv,
            seq_q * tile_kv <= usize::MAX,
            acc@.len() == seq_q * vd,
            seq_q * vd <= usize::MAX,
            probs@.len() == qi * tile_kv,
            mid@.len() == qi * vd,
            row_max@.len() == seq_q,
            row_sum@.len() == seq_q,
            before.0.len() == seq_q,
            before.1.len() == seq_q,
            before.2 == acc@,
            forall|i: int| qi <= i < seq_q ==> row_max@[i] == before.0[i] && row_sum@[i] == before.1[i],
            p.seq_q + p.seq_kv <= usize::MAX + 1,
            mask is Some ==> mask->0@.len() == p.seq_q * p.seq_kv,
            bias is Some ==> bias->0@.len() == p.seq_q * p.seq_kv,
            forall|a: T, b: T| call_requires(*mul_fn, (a, b)),
            forall|a: T, b: T| call_requires(*softcap_fn, (a, b)),
            forall|a: T, b: T| call_requires(*add_fn, (a, b)),
            forall|a: T, b: T| call_requires(*gt, (a, b)),
            forall|a: T, b: T| call_requires(*eq, (a, b)),
            forall|a: T, b: T| call_requires(*exp_shift, (a, b)),
            forall|i: int|
                0 <= i < qi ==> #[trigger] flash_row_step(
                    *mul_fn,
                    *softcap_fn,
                    *add_fn,
                    *gt,
                    *eq,
                    *exp_shift,
                    *p,
                    neg_inf,
                    zero,
                    opt_view(mask),
                    opt_view(bias),
                    i,
                    kv_start as int,
                    mat_row(scores@, tile_kv as int, i),
                    mat_row(probs@, tile_kv as int, i),
                    before.0[i],
                    before.1[i],
                    mat_row(before.2, vd as int, i),
                    row_max@[i],
                    row_sum@[i],
                    mat_row(mid@, vd as int, i),
                ),
        decreases seq_q - qi,
    {
        proof {
            assert(qi * tile_kv + tile_kv <= seq_q * tile_kv) by (nonlinear_arith)
                requires qi < seq_q, tile_kv >= 0;
            assert(0 <= qi * tile_kv) by (nonlinear_arith)
                requires qi >= 0, tile_kv >= 0;
            assert(qi * vd + vd <= seq_q * vd) by (nonlinear_arith)
                requires qi < seq_q, vd >= 0;
            assert(0 <= qi * vd) by (nonlinear_arith)
                requires qi >= 0, vd >= 0;
        }
        let srow = slice_subrange(scores.as_slice(), qi * tile_kv, qi * tile_kv + tile_kv);
        let o0 = slice_subrange(acc.as_slice(), qi * vd, qi * vd + vd);
        let m0 = row_max[qi];
        let s0 = row_sum[qi];
        let (mut prow, m1, s1, mut o1) = flash_row_update(
            srow,
            qi,
            kv_start,
            p,
            mask,
            bias,
            m0,
            s0,
            o0,
            neg_inf,
            zero,
            mul_fn,
            softcap_fn,
            add_fn,
            gt,
            eq,
            exp_shift,
        );
        let ghost probs_before = probs@;
        let ghost mid_before = mid@;
        let ghost prow_v = prow@;
        let ghost o1_v = o1@;
        probs.append(&mut prow);
        mid.append(&mut o1);
        row_max.set(qi, m1);
        row_sum.set(qi, s1);
        proof {
            assert(mat_row(scores@, tile_kv as int, qi as int) =~= srow@);
            assert(mat_row(probs@, tile_kv as int, qi as int) =~= prow_v);
            assert(mat_row(before.2, vd as int, qi as int) =~= o0@);
            assert(mat_row(mid@, vd as int, qi as int) =~= o1_v);
            assert forall|i: int| 0 <= i < qi implies #[trigger] mat_row(probs@, tile_kv as int, i) == mat_row(
                probs_before,
                tile_kv as int,
                i,
            ) && mat_row(mid@, vd as int, i) == mat_row(mid_before, vd as int, i) by {
                assert(i * tile_kv + tile_kv <= qi * tile_kv) by (nonlinear_arith)
                    requires i < qi, tile_kv >= 0;
                assert(0 <= i * tile_kv) by (nonlinear_arith)
                    requires i >= 0, tile_kv >= 0;
                assert(i * vd + vd <= qi * vd) by (nonlinear_arith)
                    requires i < qi, vd >= 0;
                assert(0 <= i * vd) by (nonlinear_arith)
                    requires i >= 0, vd >= 0;
                assert(mat_row(probs@, tile_kv as int, i) =~= mat_row(probs_before, tile_kv as int, i));
                assert(mat_row(mid@, vd as int, i) =~= mat_row(mid_before, vd as int, i));
            }
            assert(probs@.len() == (qi + 1) * tile_kv) by (nonlinear_arith)
                requires probs@.len() == qi * tile_kv + tile_kv;
            assert(mid@.len() == (qi + 1) * vd) by (nonlinear_arith)
                requires mid@.len() == qi * vd + vd;
        }
        qi = qi + 1;
    }
    let v_tile = slice_subrange(v, kv_start * vd, (kv_start + tile_kv) * vd);
    let lhs = probs.as_slice();
    let prod = gemm_nn(lhs, v_tile, seq_q, tile_kv, vd);
    let mut out: Vec<T> = Vec::new();
    let mut i: usize = 0;
    let total = seq_q * vd;
    while i < total
        invariant
            i <= total,
            total == seq_q * vd,
            mid@.len() == total,
            prod@.len() == total,
            out@.len() == i,
            forall|j: int| 0 <= j < i ==> call_ensures(*add_fn, (mid@[j], prod@[j]), #[trigger] out@[j]),
            forall|a: T, b: T| call_requires(*add_fn, (a, b)),
        decreases total - i,
    {
        let w = add_fn(mid[i], prod[i]);
        out.push(w);
        i = i + 1;
    }
    proof {
        assert(call_ensures(*gemm_nt, (q, k_tile, (p.seq_q as int) as usize, (p.head_dim as int) as usize, (tile_kv as int) as usize), scores_v));
        assert(k_tile@ == k@.subrange(kv_start * d, (kv_start + tile_kv) * d));
        assert(product_of(*gemm_nt, q@, k@.subrange(kv_start * d, (kv_start + tile_kv) * d), p.seq_q as int, d as int, tile_kv as int, scores@));
        assert(call_ensures(*gemm_nn, (lhs, v_tile, (p.seq_q as int) as usize, (tile_kv as int) as usize, (vd as int) as usize), prod));
        assert(product_of(*gemm_nn, probs@, v@.subrange(kv_start * vd, (kv_start + tile_kv) * vd), p.seq_q as int, tile_kv as int, vd as int, prod@));
        assert(flash_tile_parts(
            *gemm_nt,
            *gemm_nn,
            *mul_fn,
            *softcap_fn,
            *add_fn,
            *gt,
            *eq,
            *exp_shift,
            *p,
            neg_inf,
            zero,
            q@,
            k@,
            v@,
            opt_view(mask),
            opt_view(bias),
            t as int,
            before,
            (row_max@, row_sum@, out@),
            scores@,
            probs@,
            mid@,
            prod@,
        ));
    }
    (row_max, row_sum, out)
}

} // verus!

verus! {

/// One `(batch, head)` pair the flash way: every key tile in order through
/// the online softmax, then each row divided by its sum (rows whose keys
/// were all hidden stay zero).
pub fn flash_attention_head<T: Copy, M, C, P, G, Q, E, R, NT, NN>(
    q: &[T],
    k: &[T],
    v: &[T],
    p: &AttentionParams<T>,
    mask: Option<&[u8]>,
    bias: Option<&[T]>,
    neg_inf: T,
    zero: T,
    mul_fn: &M,
    softcap_fn: &C,
    add_fn: &P,
    gt: &G,
    eq: &Q,
    exp_shift: &E,
    recip: &R,
    gemm_nt: &NT,
    gemm_nn: &NN,
) -> (out: Vec<T>) where
    M: Fn(T, T) -> T,
    C: Fn(T, T) -> T,
    P: Fn(T, T) -> T,
    G: Fn(T, T) -> bool,
    Q: Fn(T, T) -> bool,
    E: Fn(T, T) -> T,
    R: Fn(T) -> T,
    NT: Fn(&[T], &[T], usize, usize, usize) -> Vec<T>,
    NN: Fn(&[T], &[T], usize, usize, usize) -> Vec<T>,

    requires
        k@.len() == p.seq_kv * p.head_dim,
        v@.len() == p.seq_kv * p.val_dim,
        p.seq_q * p.val_dim <= usize::MAX,
        p.seq_q + p.seq_kv <= usize::MAX + 1,
        mask is Some ==> mask->0@.len() == p.seq_q * p.seq_kv,
        bias is Some ==> bias->0@.len() == p.seq_q * p.seq_kv,
        forall|a: T, b: T| call_requires(*mul_fn, (a, b)),
        forall|a: T, b: T| call_requires(*softcap_fn, (a, b)),
        forall|a: T, b: T| call_requires(*add_fn, (a, b)),
        forall|a: T, b: T| call_requires(*gt, (a, b)),
        forall|a: T, b: T| call_requires(*eq, (a, b)),
        forall|a: T, b: T| call_requires(*exp_shift, (a, b)),
        forall|a: T| call_requires(*recip, (a,)),
        gemm_ready(*gemm_nt),
        gemm_ready(*gemm_nn),
    ensures
        out@.len() == p.seq_q * p.val_dim,
        flash_head_result(
            *gemm_nt,
            *gemm_nn,
            *mul_fn,
            *softcap_fn,
            *add_fn,
            *gt,
            *eq,
            *exp_shift,
            *recip,
            *p,
            neg_inf,
            zero,
            q@,
            k@,
            v@,
            opt_view(mask),
            opt_view(bias),
            out@,
        ),
{
    let seq_q = p.seq_q;
    let vd = p.val_dim;
    let total = seq_q * vd;
    let mut row_max: Vec<T> = Vec::new();
    let mut row_sum: Vec<T> = Vec::new();
    let mut i: usize = 0;
    while i < seq_q
        invariant
            i <= seq_q,
            row_max@ == Seq::new(i as nat, |j: int| neg_inf),
            row_sum@ == Seq::new(i as nat, |j: int| zero),
        decreases seq_q - i,
    {
        row_max.push(neg_inf);
        row_sum.push(zero);
        i = i + 1;
        proof {
            assert(row_max@ =~= Seq::new(i as nat, |j: int| neg_inf));
            assert(row_sum@ =~= Seq::new(i as nat, |j: int| zero));
        }
    }
    let mut acc: Vec<T> = Vec::new();
    let mut i: usize = 0;
    while i < total
        invariant
            i <= total,
            acc@ == Seq::new(i as nat, |j: int| zero),
        decreases total - i,
    {
        acc.push(zero);
        i = i + 1;
        proof {
            assert(acc@ =~= Seq::new(i as nat, |j: int| zero));
        }
    }
    let mut state = (row_max, row_sum, acc);
    let ghost mut states: Seq<(Seq<T>, Seq<T>, Seq<T>)> = seq![(state.0@, state.1@, state.2@)];
    proof {
        assert(states[0] == flash_initial(*p, neg_inf, zero));
    }
    let num_tiles = crate::conv::div_ceil(p.seq_kv, TILE_KV);
    let mut t: usize = 0;
    while t < num_tiles
        invariant
            t <= num_tiles,
            num_tiles == ceil_div(p.seq_kv as int, TILE_KV as int),
            states.len() == t + 1,
            states[0] == flash_initial(*p, neg_inf, zero),
            states.last() == (state.0@, state.1@, state.2@),
            state.0@.len() == p.seq_q,
            state.1@.len() == p.seq_q,
            state.2@.len() == p.seq_q * p.val_dim,
            k@.len() == p.seq_kv * p.head_dim,
            v@.len() == p.seq_kv * p.val_dim,
            p.seq_q + p.seq_kv <= usize::MAX + 1,
            mask is Some ==> mask->0@.len() == p.seq_q * p.seq_kv,
            bias is Some ==> bias->0@.len() == p.seq_q * p.seq_kv,
            forall|a: T, b: T| call_requires(*mul_fn, (a, b)),
            forall|a: T, b: T| call_requires(*softcap_fn, (a, b)),
            forall|a: T, b: T| call_requires(*add_fn, (a, b)),
            forall|a: T, b: T| call_requires(*gt, (a, b)),
            forall|a: T, b: T| call_requires(*eq, (a, b)),
            forall|a: T, b: T| call_requires(*exp_shift, (a, b)),
            gemm_ready(*gemm_nt),
            gemm_ready(*gemm_nn),
            forall|u: int|
                0 <= u < t ==> #[trigger] flash_tile_step(
                    *gemm_nt,
                    *gemm_nn,
                    *mul_fn,
                    *softcap_fn,
                    *add_fn,
                    *gt,
                    *eq,
                    *exp_shift,
                    *p,
                    neg_inf,
                    zero,
                    q@,
                    k@,
                    v@,
                    opt_view(mask),
                    opt_view(bias),
                    u,
                    states[u],
                    states[u + 1],
                ),
        decreases num_tiles - t,
    {
        let next = flash_tile(
            q,
            k,
            v,
            p,
            mask,
            bias,
            t,
            state,
            neg_inf,
            zero,
            mul_fn,
            softcap_fn,
            add_fn,
            gt,
            eq,
            exp_shift,
            gemm_nt,
            gemm_nn,
        );
        proof {
            let s2 = states.push((next.0@, next.1@, next.2@));
            assert forall|u: int| 0 <= u < t + 1 implies #[trigger] flash_tile_step(
                *gemm_nt,
                *gemm_nn,
                *mul_fn,
                *softcap_fn,
                *add_fn,
                *gt,
                *eq,
                *exp_shift,
                *p,
                neg_inf,
                zero,
                q@,
                k@,
                v@,
                opt_view(mask),
                opt_view(bias),
                u,
                s2[u],
                s2[u + 1],
            ) by {
                if u < t {
                    assert(s2[u] == states[u] && s2[u + 1] == states[u + 1]);
                } else {
                    assert(s2[u] == states.last());
                }
            }
            states = s2;
        }
        state = next;
        t = t + 1;
    }
    // Final normalization by the row sums.
    let (_row_max, row_sum, acc) = state;
    let _alen = acc.len();
    let mut out: Vec<T> = Vec::new();
    let mut qi: usize = 0;
    while qi < seq_q
        invariant
            qi <= seq_q,
            seq_q == p.seq_q,
            vd == p.val_dim,
            row_sum@ == states.last().1,
            acc@ == states.last().2,
            row_sum@.len() == seq_q,
            acc@.len() == seq_q * vd,
            seq_q * vd <= usize::MAX,
            out@.len() == qi * vd,
            forall|a: T, b: T| call_requires(*gt, (a, b)),
            forall|a: T, b: T| call_requires(*mul_fn, (a, b)),
            forall|a: T| call_requires(*recip, (a,)),
            forall|i: int|
                0 <= i < qi ==> #[trigger] flash_row_finish(
                    *gt,
                    *recip,
                    *mul_fn,
                    zero,
                    states.last().1[i],
                    mat_row(states.last().2, vd as int, i),
                    mat_row(out@, vd as int, i),
                ),
        decreases seq_q - qi,
    {
        proof {
            assert(qi * vd + vd <= seq_q * vd) by (nonlinear_arith)
                requires qi < seq_q, vd >= 0;
            assert(0 <= qi * vd) by (nonlinear_arith)
                requires qi >= 0, vd >= 0;
        }
        let orow = slice_subrange(acc.as_slice(), qi * vd, qi * vd + vd);
        let s = row_sum[qi];
        let positive = gt(s, zero);
        let mut row: Vec<T> = if positive {
            let inv = recip(s);
            let mut r: Vec<T> = Vec::new();
            let mut c: usize = 0;
            while c < vd
                invariant
                    c <= vd,
                    vd == orow@.len(),
                    r@.len() == c,
                    forall|j: int| 0 <= j < c ==> call_ensures(*mul_fn, (orow@[j], inv), #[trigger] r@[j]),
                    forall|a: T, b: T| call_requires(*mul_fn, (a, b)),
                decreases vd - c,
            {
                let w = mul_fn(orow[c], inv);
                r.push(w);
                c = c + 1;
            }
            r
        } else {
            copy_row(orow)
        };
        let ghost row_v = row@;
        let ghost before = out@;
        out.append(&mut row);
        proof {
            assert(mat_row(states.last().2, vd as int, qi as int) =~= orow@);
            assert(mat_row(out@, vd as int, qi as int) =~= row_v);
            assert(flash_row_finish(
                *gt,
                *recip,
                *mul_fn,
                zero,
                states.last().1[qi as int],
                mat_row(states.last().2, vd as int, qi as int),
                mat_row(out@, vd as int, qi as int),
            ));
            assert forall|i: int| 0 <= i < qi implies #[trigger] mat_row(out@, vd as int, i) == mat_row(before, vd as int, i) by {
                assert(i * vd + vd <= qi * vd) by (nonlinear_arith)
                    requires i < qi, vd >= 0;
                assert(0 <= i * vd) by (nonlinear_arith)
                    requires i >= 0, vd >= 0;
                assert(mat_row(out@, vd as int, i) =~= mat_row(before, vd as int, i));
            }
            assert(out@.len() == (qi + 1) * vd) by (nonlinear_arith)
                requires out@.len() == qi * vd + vd;
        }
        qi = qi + 1;
    }
    proof {
        assert(flash_trace(
            *gemm_nt,
            *gemm_nn,
            *mul_fn,
            *softcap_fn,
            *add_fn,
            *gt,
            *eq,
            *exp_shift,
            *p,
            neg_inf,
            zero,
            q@,
            k@,
            v@,
            opt_view(mask),
            opt_view(bias),
            states,
        ));
    }
    out
}

} // verus!
