//! What both attention strategies do to a raw score before the softmax,
//! and the matrix products they hand to the caller.
use vstd::prelude::*;
use crate::activation::{max_candidate_step, running_max_trace, runs_max_to};
use crate::arith::lemma_offset2;

verus! {

/// A borrowed optional buffer, by its contents.
pub open spec fn opt_view<E>(o: Option<&[E]>) -> Option<Seq<E>> {
    match o {
        Option::Some(s) => Option::Some(s@),
        Option::None => Option::None,
    }
}

/// Whether key position `kj` is hidden from query row `qi` of a
/// `[seq_q, seq_kv]` score tile: its mask entry is non-zero, or the causal
/// cut-off puts it after `qi + seq_kv - seq_q`.
pub open spec fn position_hidden(mask: Option<Seq<u8>>, causal: bool, seq_q: int, seq_kv: int, qi: int, kj: int) -> bool {
    ||| (mask is Some && mask->0[qi * seq_kv + kj] != 0)
    ||| (causal && kj > qi + seq_kv - seq_q)
}

/// The bias entry at score position `t`, when there is a bias.
pub open spec fn bias_at<T>(bias: Option<Seq<T>>, t: int) -> Option<T> {
    match bias {
        Option::Some(b) => Option::Some(b[t]),
        Option::None => Option::None,
    }
}

/// `v` is the score `s` times `scale`, passed through `softcap_fn` with the
/// cap when there is one.
pub open spec fn capped_score<T, M: Fn(T, T) -> T, C: Fn(T, T) -> T>(
    mul_fn: M,
    softcap_fn: C,
    scale: T,
    softcap: Option<T>,
    s: T,
    v: T,
) -> bool {
    match softcap {
        Option::None => call_ensures(mul_fn, (s, scale), v),
        Option::Some(cap) => exists|v1: T| #[trigger] call_ensures(mul_fn, (s, scale), v1) && call_ensures(softcap_fn, (v1, cap), v),
    }
}

/// `val` is `v` plus the bias entry, when there is one.
pub open spec fn bias_added<T, P: Fn(T, T) -> T>(add_fn: P, v: T, bias: Option<T>, val: T) -> bool {
    match bias {
        Option::None => val == v,
        Option::Some(b) => call_ensures(add_fn, (v, b), val),
    }
}

/// `val` is what the raw score `s` becomes before the softmax: scaled and
/// capped, replaced by `neg_inf` when hidden, then biased.
pub open spec fn score_value<T, M: Fn(T, T) -> T, C: Fn(T, T) -> T, P: Fn(T, T) -> T>(
    mul_fn: M,
    softcap_fn: C,
    add_fn: P,
    scale: T,
    softcap: Option<T>,
    neg_inf: T,
    hidden: bool,
    bias: Option<T>,
    s: T,
    val: T,
) -> bool {
    exists|v: T|
        #[trigger] capped_score(mul_fn, softcap_fn, scale, softcap, s, v) && bias_added(
            add_fn,
            if hidden { neg_inf } else { v },
            bias,
            val,
        )
}

/// `vals` holds the transformed scores of the `n` raw scores `srow` of
/// query row `qi`, at key positions `kv_start ..`.
pub open spec fn row_values<T, M: Fn(T, T) -> T, C: Fn(T, T) -> T, P: Fn(T, T) -> T>(
    mul_fn: M,
    softcap_fn: C,
    add_fn: P,
    scale: T,
    softcap: Option<T>,
    neg_inf: T,
    causal: bool,
    seq_q: int,
    seq_kv: int,
    mask: Option<Seq<u8>>,
    bias: Option<Seq<T>>,
    qi: int,
    kv_start: int,
    srow: Seq<T>,
    vals: Seq<T>,
) -> bool {
    &&& vals.len() == srow.len()
    &&& forall|j: int|
        0 <= j < srow.len() ==> #[trigger] score_value(
            mul_fn,
            softcap_fn,
            add_fn,
            scale,
            softcap,
            neg_inf,
            position_hidden(mask, causal, seq_q, seq_kv, qi, kv_start + j),
            bias_at(bias, qi * seq_kv + kv_start + j),
            srow[j],
            vals[j],
        )
}

/// `r` is what `gemm` returned for a `[m, k]` left operand `lhs` and right
/// operand `rhs`.
pub open spec fn product_of<T, G: Fn(&[T], &[T], usize, usize, usize) -> Vec<T>>(
    gemm: G,
    lhs: Seq<T>,
    rhs: Seq<T>,
    m: int,
    k: int,
    n: int,
    r: Seq<T>,
) -> bool {
    exists|a: &[T], b: &[T], rv: Vec<T>|
        #[trigger] call_ensures(gemm, (a, b, m as usize, k as usize, n as usize), rv) && a@ == lhs && b@ == rhs && rv@ == r
}

/// `gemm` can be called on anything and returns an `[m, n]` matrix.
pub open spec fn gemm_ready<T, G: Fn(&[T], &[T], usize, usize, usize) -> Vec<T>>(gemm: G) -> bool {
    &&& forall|a: &[T], b: &[T], m: usize, k: usize, n: usize| call_requires(gemm, (a, b, m, k, n))
    &&& forall|a: &[T], b: &[T], m: usize, k: usize, n: usize, p: Vec<T>|
        call_ensures(gemm, (a, b, m, k, n), p) ==> p@.len() == m * n
}

/// Whether key position `kj` is hidden from query row `qi`: a non-zero
/// mask entry, or a position after the causal cut-off.
pub fn score_hidden(mask: Option<&[u8]>, causal: bool, seq_q: usize, seq_kv: usize, qi: usize, kj: usize) -> (r: bool)
    requires
        qi < seq_q,
        kj < seq_kv,
        seq_q + seq_kv <= usize::MAX + 1,
        mask is Some ==> mask->0@.len() == seq_q * seq_kv,
    ensures
        r == position_hidden(opt_view(mask), causal, seq_q as int, seq_kv as int, qi as int, kj as int),
{
    let masked = match mask {
        Option::Some(m) => {
            proof {
                lemma_offset2(qi as int, kj as int, seq_q as int, seq_kv as int);
            }
            let _len = m.len();
            m[qi * seq_kv + kj] != 0
        },
        Option::None => false,
    };
    // `kj > qi + seq_kv - seq_q`, without leaving the unsigned range.
    let beyond = causal && kj + seq_q > qi + seq_kv;
    masked || beyond
}

/// Scales, caps, hides and biases one raw score.
pub fn transform_score<T: Copy, M, C, P>(
    s: T,
    scale: T,
    softcap: Option<T>,
    hidden: bool,
    bias: Option<T>,
    neg_inf: T,
    mul_fn: &M,
    softcap_fn: &C,
    add_fn: &P,
) -> (val: T) where M: Fn(T, T) -> T, C: Fn(T, T) -> T, P: Fn(T, T) -> T,
    requires
        forall|a: T, b: T| call_requires(*mul_fn, (a, b)),
        forall|a: T, b: T| call_requires(*softcap_fn, (a, b)),
        forall|a: T, b: T| call_requires(*add_fn, (a, b)),
    ensures
        score_value(*mul_fn, *softcap_fn, *add_fn, scale, softcap, neg_inf, hidden, bias, s, val),
{
    let v1 = mul_fn(s, scale);
    let v = match softcap {
        Option::Some(cap) => softcap_fn(v1, cap),
        Option::None => v1,
    };
    proof {
        assert(capped_score(*mul_fn, *softcap_fn, scale, softcap, s, v));
    }
    let w = if hidden { neg_inf } else { v };
    match bias {
        Option::Some(b) => add_fn(w, b),
        Option::None => w,
    }
}

/// The transformed scores of one query row over the key positions
/// `kv_start .. kv_start + srow.len()`, and their running maximum from
/// `neg_inf`.
pub fn transform_row<T: Copy, M, C, P, G>(
    srow: &[T],
    qi: usize,
    kv_start: usize,
    scale: T,
    softcap: Option<T>,
    causal: bool,
    seq_q: usize,
    seq_kv: usize,
    mask: Option<&[u8]>,
    bias: Option<&[T]>,
    neg_inf: T,
    mul_fn: &M,
    softcap_fn: &C,
    add_fn: &P,
    gt: &G,
) -> (r: (Vec<T>, T)) where M: Fn(T, T) -> T, C: Fn(T, T) -> T, P: Fn(T, T) -> T, G: Fn(T, T) -> bool,
    requires
        qi < seq_q,
        kv_start + srow@.len() <= seq_kv,
        seq_q + seq_kv <= usize::MAX + 1,
        mask is Some ==> mask->0@.len() == seq_q * seq_kv,
        bias is Some ==> bias->0@.len() == seq_q * seq_kv,
        forall|a: T, b: T| call_requires(*mul_fn, (a, b)),
        forall|a: T, b: T| call_requires(*softcap_fn, (a, b)),
        forall|a: T, b: T| call_requires(*add_fn, (a, b)),
        forall|a: T, b: T| call_requires(*gt, (a, b)),
    ensures
        row_values(
            *mul_fn,
            *softcap_fn,
            *add_fn,
            scale,
            softcap,
            neg_inf,
            causal,
            seq_q as int,
            seq_kv as int,
            opt_view(mask),
            opt_view(bias),
            qi as int,
            kv_start as int,
            srow@,
            r.0@,
        ),
        runs_max_to(*gt, neg_inf, r.0@, r.1),
{
    let n = srow.len();
    let mut vals: Vec<T> = Vec::new();
    let mut m = neg_inf;
    let ghost mut trace: Seq<T> = seq![neg_inf];
    let mut j: usize = 0;
    while j < n
        invariant
            j <= n,
            n == srow@.len(),
            qi < seq_q,
            kv_start + n <= seq_kv,
            seq_q + seq_kv <= usize::MAX + 1,
            mask is Some ==> mask->0@.len() == seq_q * seq_kv,
            bias is Some ==> bias->0@.len() == seq_q * seq_kv,
            forall|a: T, b: T| call_requires(*mul_fn, (a, b)),
            forall|a: T, b: T| call_requires(*softcap_fn, (a, b)),
            forall|a: T, b: T| call_requires(*add_fn, (a, b)),
            forall|a: T, b: T| call_requires(*gt, (a, b)),
            row_values(
                *mul_fn,
                *softcap_fn,
                *add_fn,
                scale,
                softcap,
                neg_inf,
                causal,
                seq_q as int,
                seq_kv as int,
                opt_view(mask),
                opt_view(bias),
                qi as int,
                kv_start as int,
                srow@.take(j as int),
                vals@,
            ),
            running_max_trace(*gt, neg_inf, vals@, trace),
            trace.last() == m,
        decreases n - j,
    {
        let kj = kv_start + j;
        let hidden = score_hidden(mask, causal, seq_q, seq_kv, qi, kj);
        let b = match bias {
            Option::Some(bs) => {
                proof {
                    lemma_offset2(qi as int, kj as int, seq_q as int, seq_kv as int);
                }
                let _len = bs.len();
                Option::Some(bs[qi * seq_kv + kj])
            },
            Option::None => Option::None,
        };
        proof {
            assert(b == bias_at(opt_view(bias), qi * seq_kv + kv_start + j));
        }
        let val = transform_score(srow[j], scale, softcap, hidden, b, neg_inf, mul_fn, softcap_fn, add_fn);
        let bigger = gt(val, m);
        let ghost before = m;
        if bigger {
            m = val;
        }
        let ghost old_vals = vals@;
        vals.push(val);
        proof {
            assert(max_candidate_step(*gt, before, val, m));
            let t2 = trace.push(m);
            assert forall|i: int| 0 <= i < vals@.len() implies #[trigger] max_candidate_step(*gt, t2[i], vals@[i], t2[i + 1]) by {
                if i < old_vals.len() {
                    assert(max_candidate_step(*gt, trace[i], old_vals[i], trace[i + 1]));
                }
            }
            trace = t2;
            assert(srow@.take(j as int).push(srow@[j as int]) =~= srow@.take(j + 1));
            assert forall|i: int| 0 <= i < j + 1 implies #[trigger] score_value(
                *mul_fn,
                *softcap_fn,
                *add_fn,
                scale,
                softcap,
                neg_inf,
                position_hidden(opt_view(mask), causal, seq_q as int, seq_kv as int, qi as int, kv_start + i),
                bias_at(opt_view(bias), qi * seq_kv + kv_start + i),
                srow@.take(j + 1)[i],
                vals@[i],
            ) by {
                if i < j {
                    assert(srow@.take(j + 1)[i] == srow@.take(j as int)[i]);
                }
            }
        }
        j = j + 1;
    }
    proof {
        assert(srow@.take(n as int) =~= srow@);
    }
    (vals, m)
}

} // verus!
