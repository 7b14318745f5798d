//! The naive strategy: the whole `[seq_q, seq_kv]` score matrix of a head,
//! a row-wise softmax, then one product with the values.
use vstd::prelude::*;
use vstd::slice::slice_subrange;
use crate::activation::{all_steps, runs_max_to};
use crate::arith::lemma_offset2;
use crate::fold::{folds_to, lemma_folds_to_empty, lemma_folds_to_push};
use super::AttentionParams;
use super::score::{gemm_ready, opt_view, product_of, row_values, transform_row};

verus! {

/// `probs` is `vals` shifted by their maximum `m`, exponentiated with
/// `exp_shift`, and scaled by the reciprocal `inv` of their in-order sum `s`.
pub open spec fn normalized_row<T, E: Fn(T, T) -> T, P: Fn(T, T) -> T, R: Fn(T) -> T, M: Fn(T, T) -> T>(
    exp_shift: E,
    add_fn: P,
    recip: R,
    mul_fn: M,
    zero: T,
    vals: Seq<T>,
    m: T,
    es: Seq<T>,
    s: T,
    inv: T,
    probs: Seq<T>,
) -> bool {
    &&& es.len() == vals.len()
    &&& probs.len() == vals.len()
    &&& forall|j: int|
        0 <= j < vals.len() ==> call_ensures(exp_shift, (vals[j], m), #[trigger] es[j]) && call_ensures(
            mul_fn,
            (es[j], inv),
            probs[j],
        )
    &&& folds_to(add_fn, zero, all_steps(es), s)
    &&& call_ensures(recip, (s,), inv)
}

/// `probs` is the naive softmax of the transformed row `vals` whose running
/// maximum is `m`: all `zero` when `eq` finds `m` equal to `neg_inf` (every
/// position hidden), the normalized exponentials otherwise.
pub open spec fn naive_probs<T, Q: Fn(T, T) -> bool, E: Fn(T, T) -> T, P: Fn(T, T) -> T, R: Fn(T) -> T, M: Fn(T, T) -> T>(
    eq: Q,
    exp_shift: E,
    add_fn: P,
    recip: R,
    mul_fn: M,
    neg_inf: T,
    zero: T,
    vals: Seq<T>,
    m: T,
    probs: Seq<T>,
) -> bool {
    ||| (call_ensures(eq, (m, neg_inf), true) && probs == Seq::new(vals.len(), |j: int| zero))
    ||| (call_ensures(eq, (m, neg_inf), false) && exists|es: Seq<T>, s: T, inv: T|
        #[trigger] normalized_row(exp_shift, add_fn, recip, mul_fn, zero, vals, m, es, s, inv, probs))
}

/// `probs` is the softmax row the naive strategy derives from the raw
/// scores `srow` of query row `qi`.
pub open spec fn naive_row<T, M, C, P, G, Q, E, R>(
    mul_fn: M,
    softcap_fn: C,
    add_fn: P,
    gt: G,
    eq: Q,
    exp_shift: E,
    recip: R,
    p: AttentionParams<T>,
    neg_inf: T,
    zero: T,
    mask: Option<Seq<u8>>,
    bias: Option<Seq<T>>,
    qi: int,
    srow: Seq<T>,
    probs: Seq<T>,
) -> bool where
    M: Fn(T, T) -> T,
    C: Fn(T, T) -> T,
    P: Fn(T, T) -> T,
    G: Fn(T, T) -> bool,
    Q: Fn(T, T) -> bool,
    E: Fn(T, T) -> T,
    R: Fn(T) -> T,
 {
    exists|vals: Seq<T>, m: T|
        #[trigger] row_values(
            mul_fn,
            softcap_fn,
            add_fn,
            p.scale,
            p.softcap,
            neg_inf,
            p.causal,
            p.seq_q as int,
            p.seq_kv as int,
            mask,
            bias,
            qi,
            0,
            srow,
            vals,
        ) && #[trigger] runs_max_to(gt, neg_inf, vals, m) && naive_probs(
            eq,
            exp_shift,
            add_fn,
            recip,
            mul_fn,
            neg_inf,
            zero,
            vals,
            m,
            probs,
        )
}

/// Row `i` of a row-major matrix with `n` columns.
pub open spec fn mat_row<T>(s: Seq<T>, n: int, i: int) -> Seq<T> {
    s.subrange(i * n, i * n + n)
}

/// The intermediate matrices of a naive head: the raw `scores` that
/// `gemm_nt` returned for `Q` and `K`, the softmax rows `probs`, and the
/// output `out` that `gemm_nn` returned for `probs` and `V`.
pub open spec fn naive_head_parts<T, M, C, P, G, Q, E, R, NT, NN>(
    gemm_nt: NT,
    gemm_nn: NN,
    mul_fn: M,
    softcap_fn: C,
    add_fn: P,
    gt: G,
    eq: Q,
    exp_shift: E,
    recip: R,
    p: AttentionParams<T>,
    neg_inf: T,
    zero: T,
    q: Seq<T>,
    k: Seq<T>,
    v: Seq<T>,
    mask: Option<Seq<u8>>,
    bias: Option<Seq<T>>,
    out: Seq<T>,
    scores: Seq<T>,
    probs: Seq<T>,
) -> bool where
    M: Fn(T, T) -> T,
    C: Fn(T, T) -> T,
    P: Fn(T, T) -> T,
    G: Fn(T, T) -> bool,
    Q: Fn(T, T) -> bool,
    E: Fn(T, T) -> T,
    R: Fn(T) -> T,
    NT: Fn(&[T], &[T], usize, usize, usize) -> Vec<T>,
    NN: Fn(&[T], &[T], usize, usize, usize) -> Vec<T>,
 {
    &&& product_of(gemm_nt, q, k, p.seq_q as int, p.head_dim as int, p.seq_kv as int, scores)
    &&& probs.len() == p.seq_q * p.seq_kv
    &&& forall|qi: int|
        0 <= qi < p.seq_q ==> #[trigger] naive_row(
            mul_fn,
            softcap_fn,
            add_fn,
            gt,
            eq,
            exp_shift,
            recip,
            p,
            neg_inf,
            zero,
            mask,
            bias,
            qi,
            mat_row(scores, p.seq_kv as int, qi),
            mat_row(probs, p.seq_kv as int, qi),
        )
    &&& product_of(gemm_nn, probs, v, p.seq_q as int, p.seq_kv as int, p.val_dim as int, out)
}

/// `out` is what the naive strategy computes for one `(batch, head)` pair.
pub open spec fn naive_head_result<T, M, C, P, G, Q, E, R, NT, NN>(
    gemm_nt: NT,
    gemm_nn: NN,
    mul_fn: M,
    softcap_fn: C,
    add_fn: P,
    gt: G,
    eq: Q,
    exp_shift: E,
    recip: R,
    p: AttentionParams<T>,
    neg_inf: T,
    zero: T,
    q: Seq<T>,
    k: Seq<T>,
    v: Seq<T>,
    mask: Option<Seq<u8>>,
    bias: Option<Seq<T>>,
    out: Seq<T>,
) -> bool where
    M: Fn(T, T) -> T,
    C: Fn(T, T) -> T,
    P: Fn(T, T) -> T,
    G: Fn(T, T) -> bool,
    Q: Fn(T, T) -> bool,
    E: Fn(T, T) -> T,
    R: Fn(T) -> T,
    NT: Fn(&[T], &[T], usize, usize, usize) -> Vec<T>,
    NN: Fn(&[T], &[T], usize, usize, usize) -> Vec<T>,
 {
    exists|scores: Seq<T>, probs: Seq<T>|
        #[trigger] naive_head_parts(
            gemm_nt,
            gemm_nn,
            mul_fn,
            softcap_fn,
            add_fn,
            gt,
            eq,
            exp_shift,
            recip,
            p,
            neg_inf,
            zero,
            q,
            k,
            v,
            mask,
            bias,
            out,
            scores,
            probs,
        )
}

/// The softmax row of the transformed scores `vals` with maximum `m`.
fn naive_probs_row<T: Copy, Q, E, P, R, M>(
    vals: &Vec<T>,
    m: T,
    neg_inf: T,
    zero: T,
    eq: &Q,
    exp_shift: &E,
    add_fn: &P,
    recip: &R,
    mul_fn: &M,
) -> (probs: Vec<T>) where
    Q: Fn(T, T) -> bool,
    E: Fn(T, T) -> T,
    P: Fn(T, T) -> T,
    R: Fn(T) -> T,
    M: Fn(T, T) -> T,

    requires
        forall|a: T, b: T| call_requires(*eq, (a, b)),
        forall|a: T, b: T| call_requires(*exp_shift, (a, b)),
        forall|a: T, b: T| call_requires(*add_fn, (a, b)),
        forall|a: T| call_requires(*recip, (a,)),
        forall|a: T, b: T| call_requires(*mul_fn, (a, b)),
    ensures
        naive_probs(*eq, *exp_shift, *add_fn, *recip, *mul_fn, neg_inf, zero, vals@, m, probs@),
{
    let n = vals.len();
    let all_hidden = eq(m, neg_inf);
    if all_hidden {
        let mut probs: Vec<T> = Vec::new();
        let mut j: usize = 0;
        while j < n
            invariant
                j <= n,
                probs@ == Seq::new(j as nat, |i: int| zero),
            decreases n - j,
        {
            probs.push(zero);
            j = j + 1;
            proof {
                assert(probs@ =~= Seq::new(j as nat, |i: int| zero));
            }
        }
        return probs;
    }
    let mut es: Vec<T> = Vec::new();
    let mut s = zero;
    proof {
        lemma_folds_to_empty(*add_fn, zero);
        assert(all_steps(es@) =~= Seq::<Option<T>>::empty());
    }
    let mut j: usize = 0;
    while j < n
        invariant
            j <= n,
            n == vals.len(),
            es.len() == j,
            forall|i: int| 0 <= i < j ==> call_ensures(*exp_shift, (vals@[i], m), #[trigger] es@[i]),
            folds_to(*add_fn, zero, all_steps(es@), s),
            forall|a: T, b: T| call_requires(*exp_shift, (a, b)),
            forall|a: T, b: T| call_requires(*add_fn, (a, b)),
        decreases n - j,
    {
        let e = exp_shift(vals[j], m);
        let s2 = add_fn(s, e);
        proof {
            lemma_folds_to_push(*add_fn, zero, all_steps(es@), s, Option::Some(e), s2);
            assert(all_steps(es@).push(Option::Some(e)) =~= all_steps(es@.push(e)));
        }
        es.push(e);
        s = s2;
        j = j + 1;
    }
    let inv = recip(s);
    let mut probs: Vec<T> = Vec::new();
    let mut j: usize = 0;
    while j < n
        invariant
            j <= n,
            n == vals.len(),
            es.len() == n,
            probs.len() == j,
            forall|i: int| 0 <= i < j ==> call_ensures(*mul_fn, (es@[i], inv), #[trigger] probs@[i]),
            forall|a: T, b: T| call_requires(*mul_fn, (a, b)),
        decreases n - j,
    {
        let pr = mul_fn(es[j], inv);
        probs.push(pr);
        j = j + 1;
    }
    proof {
        assert(normalized_row(*exp_shift, *add_fn, *recip, *mul_fn, zero, vals@, m, es@, s, inv, probs@));
    }
    probs
}

/// One `(batch, head)` pair the naive way: `scores = Q @ K^T` through
/// `gemm_nt`, each row transformed (scale, soft cap, mask, causal cut-off,
/// bias) and softmaxed, then `softmax(scores) @ V` through `gemm_nn`.
pub fn naive_attention_head<T: Copy, M, C, P, G, Q, E, R, NT, NN>(
    q: &[T],
    k: &[T],
    v: &[T],
    p: &AttentionParams<T>,
    mask: Option<&[u8]>,
    bias: Option<&[T]>,
    neg_inf: T,
    zero: T,
    mul_fn: &M,
    softcap_fn: &C,
    add_fn: &P,
    gt: &G,
    eq: &Q,
    exp_shift: &E,
    recip: &R,
    gemm_nt: &NT,
    gemm_nn: &NN,
) -> (out: Vec<T>) where
    M: Fn(T, T) -> T,
    C: Fn(T, T) -> T,
    P: Fn(T, T) -> T,
    G: Fn(T, T) -> bool,
    Q: Fn(T, T) -> bool,
    E: Fn(T, T) -> T,
    R: Fn(T) -> T,
    NT: Fn(&[T], &[T], usize, usize, usize) -> Vec<T>,
    NN: Fn(&[T], &[T], usize, usize, usize) -> Vec<T>,

    requires
        p.seq_q + p.seq_kv <= usize::MAX + 1,
        mask is Some ==> mask->0@.len() == p.seq_q * p.seq_kv,
        bias is Some ==> bias->0@.len() == p.seq_q * p.seq_kv,
        forall|a: T, b: T| call_requires(*mul_fn, (a, b)),
        forall|a: T, b: T| call_requires(*softcap_fn, (a, b)),
        forall|a: T, b: T| call_requires(*add_fn, (a, b)),
        forall|a: T, b: T| call_requires(*gt, (a, b)),
        forall|a: T, b: T| call_requires(*eq, (a, b)),
        forall|a: T, b: T| call_requires(*exp_shift, (a, b)),
        forall|a: T| call_requires(*recip, (a,)),
        gemm_ready(*gemm_nt),
        gemm_ready(*gemm_nn),
    ensures
        out@.len() == p.seq_q * p.val_dim,
        naive_head_result(
            *gemm_nt,
            *gemm_nn,
            *mul_fn,
            *softcap_fn,
            *add_fn,
            *gt,
            *eq,
            *exp_shift,
            *recip,
            *p,
            neg_inf,
            zero,
            q@,
            k@,
            v@,
            opt_view(mask),
            opt_view(bias),
            out@,
        ),
{
    let seq_q = p.seq_q;
    let seq_kv = p.seq_kv;
    let scores = gemm_nt(q, k, seq_q, p.head_dim, seq_kv);
    let ghost scores_v = scores;
    let _len = scores.len();
    let mut probs: Vec<T> = Vec::new();
    let mut qi: usize = 0;
    while qi < seq_q
        invariant
            qi <= seq_q,
            seq_q == p.seq_q,
            seq_kv == p.seq_kv,
            scores@.len() == seq_q * seq_kv,
            seq_q * seq_kv <= usize::MAX,
            probs@.len() == qi * seq_kv,
            p.seq_q + p.seq_kv <= usize::MAX + 1,
            mask is Some ==> mask->0@.len() == p.seq_q * p.seq_kv,
            bias is Some ==> bias->0@.len() == p.seq_q * p.seq_kv,
            forall|a: T, b: T| call_requires(*mul_fn, (a, b)),
            forall|a: T, b: T| call_requires(*softcap_fn, (a, b)),
            forall|a: T, b: T| call_requires(*add_fn, (a, b)),
            forall|a: T, b: T| call_requires(*gt, (a, b)),
            forall|a: T, b: T| call_requires(*eq, (a, b)),
            forall|a: T, b: T| call_requires(*exp_shift, (a, b)),
            forall|a: T| call_requires(*recip, (a,)),
            forall|i: int|
                0 <= i < qi ==> #[trigger] naive_row(
                    *mul_fn,
                    *softcap_fn,
                    *add_fn,
                    *gt,
                    *eq,
                    *exp_shift,
                    *recip,
                    *p,
                    neg_inf,
                    zero,
                    opt_view(mask),
                    opt_view(bias),
                    i,
                    mat_row(scores@, seq_kv as int, i),
                    mat_row(probs@, seq_kv as int, i),
                ),
        decreases seq_q - qi,
    {
        proof {
            assert(qi * seq_kv + seq_kv <= seq_q * seq_kv) by (nonlinear_arith)
                requires qi < seq_q, seq_kv >= 0;
            assert(0 <= qi * seq_kv) by (nonlinear_arith)
                requires qi >= 0, seq_kv >= 0;
        }
        let start = qi * seq_kv;
        let srow = slice_subrange(scores.as_slice(), start, start + seq_kv);
        let (vals, m) = transform_row(
            srow,
            qi,
            0,
            p.scale,
            p.softcap,
            p.causal,
            seq_q,
            seq_kv,
            mask,
            bias,
            neg_inf,
            mul_fn,
            softcap_fn,
            add_fn,
            gt,
        );
        let mut row = naive_probs_row(&vals, m, neg_inf, zero, eq, exp_shift, add_fn, recip, mul_fn);
        let ghost before = probs@;
        let ghost row_v = row@;
        probs.append(&mut row);
        proof {
            assert(mat_row(scores@, seq_kv as int, qi as int) =~= srow@);
            assert(mat_row(probs@, seq_kv as int, qi as int) =~= row_v);
            assert(naive_row(
                *mul_fn,
                *softcap_fn,
                *add_fn,
                *gt,
                *eq,
                *exp_shift,
                *recip,
                *p,
                neg_inf,
                zero,
                opt_view(mask),
                opt_view(bias),
                qi as int,
                mat_row(scores@, seq_kv as int, qi as int),
                mat_row(probs@, seq_kv as int, qi as int),
            ));
            assert forall|i: int| 0 <= i < qi implies #[trigger] mat_row(probs@, seq_kv as int, i) == mat_row(before, seq_kv as int, i) by {
                assert(i * seq_kv + seq_kv <= qi * seq_kv) by (nonlinear_arith)
                    requires i < qi, seq_kv >= 0;
                assert(0 <= i * seq_kv) by (nonlinear_arith)
                    requires i >= 0, seq_kv >= 0;
                assert(mat_row(probs@, seq_kv as int, i) =~= mat_row(before, seq_kv as int, i));
            }
            assert(probs@.len() == (qi + 1) * seq_kv) by (nonlinear_arith)
                requires probs@.len() == qi * seq_kv + seq_kv;
        }
        qi = qi + 1;
    }
    let lhs = probs.as_slice();
    let out = gemm_nn(lhs, v, seq_q, seq_kv, p.val_dim);
    proof {
        assert(call_ensures(*gemm_nt, (q, k, (p.seq_q as int) as usize, (p.head_dim as int) as usize, (p.seq_kv as int) as usize), scores_v));
        assert(product_of(*gemm_nt, q@, k@, p.seq_q as int, p.head_dim as int, p.seq_kv as int, scores@));
        assert(call_ensures(*gemm_nn, (lhs, v, (p.seq_q as int) as usize, (p.seq_kv as int) as usize, (p.val_dim as int) as usize), out));
        assert(product_of(*gemm_nn, probs@, v@, p.seq_q as int, p.seq_kv as int, p.val_dim as int, out@));
        assert(naive_head_parts(
            *gemm_nt,
            *gemm_nn,
            *mul_fn,
            *softcap_fn,
            *add_fn,
            *gt,
            *eq,
            *exp_shift,
            *recip,
            *p,
            neg_inf,
            zero,
            q@,
            k@,
            v@,
            opt_view(mask),
            opt_view(bias),
            out@,
            scores@,
            probs@,
        ));
    }
    out
}

} // verus!
