//! The loop over `(batch, head)` pairs shared by both strategies, the
//! public entry points and the element casts around them.
use vstd::prelude::*;
use vstd::slice::slice_subrange;
use crate::arith::{lemma_div_lt, lemma_div_mod_offset, lemma_offset2};
use crate::tensor::{DType, HostTensor, shape_numel, lemma_numel_4};
use super::{
    AttentionParams,
    BroadcastMaskBias,
    NAIVE_SCORE_BUDGET,
    bcast_compatible,
    bcast_entry,
    bcast_ready,
    bcast_source_index,
    broadcast_attn_mask_bias,
    tile_start,
};
use super::flash::{flash_attention_head, flash_head_result};
use super::naive::{naive_attention_head, naive_head_result};
use super::score::{gemm_ready, opt_view};

verus! {

/// Query `[batch, heads, seq_q, head_dim]`, key `[batch, heads, seq_kv,
/// head_dim]` and value `[batch, heads, seq_kv, val_dim]` agree, and
/// `head_dim` is not zero.
pub open spec fn attention_shapes_ok(qs: Seq<usize>, ks: Seq<usize>, vs: Seq<usize>) -> bool {
    &&& qs.len() == 4
    &&& ks.len() == 4
    &&& vs.len() == 4
    &&& qs[3] > 0
    &&& ks[0] == qs[0]
    &&& ks[1] == qs[1]
    &&& ks[3] == qs[3]
    &&& vs[0] == qs[0]
    &&& vs[1] == qs[1]
    &&& vs[2] == ks[2]
}

/// The per-head parameters of an attention call.
pub open spec fn params_of<T>(
    qs: Seq<usize>,
    ks: Seq<usize>,
    vs: Seq<usize>,
    scale: T,
    softcap: Option<T>,
    is_causal: bool,
) -> AttentionParams<T> {
    AttentionParams { scale, softcap, causal: is_causal, seq_q: qs[2], seq_kv: ks[2], head_dim: qs[3], val_dim: vs[3] }
}

/// The shape every mask and bias is broadcast to.
pub open spec fn score_target(qs: Seq<usize>, ks: Seq<usize>) -> [usize; 4] {
    [qs[0], qs[1], qs[2], ks[2]]
}

/// A mask or bias is absent, or a well-formed tensor that broadcasts to
/// `target`; expanding it must fit in memory when its trailing extents are
/// broadcast.
pub open spec fn side_input_ok<E>(m: Option<HostTensor<E>>, target: [usize; 4]) -> bool {
    match m {
        Option::Some(t) => t.wf() && bcast_compatible(t.shape@, target) && target[0] * target[1] * target[2]
            * target[3] <= usize::MAX,
        Option::None => true,
    }
}

/// The `[seq_q, seq_kv]` tile of a mask or bias that the pair `(b, h)` sees.
pub open spec fn side_tile<E>(m: Option<HostTensor<E>>, target: [usize; 4], b: int, h: int) -> Option<Seq<E>> {
    match m {
        Option::Some(t) => Option::Some(
            Seq::new(
                (target[2] * target[3]) as nat,
                |x: int| t.data@[bcast_source_index(t.shape@, b, h, x / (target[3] as int), x % (target[3] as int))],
            ),
        ),
        Option::None => Option::None,
    }
}

/// Block `l` of `len` elements.
pub open spec fn block<T>(s: Seq<T>, l: int, len: int) -> Seq<T> {
    s.subrange(l * len, l * len + len)
}

/// What one head computes, by strategy.
pub open spec fn head_result<T, M, C, P, G, Q, E, R, NT, NN>(
    flash: bool,
    gemm_nt: NT,
    gemm_nn: NN,
    mul_fn: M,
    softcap_fn: C,
    add_fn: P,
    gt: G,
    eq: Q,
    exp_shift: E,
    recip: R,
    p: AttentionParams<T>,
    neg_inf: T,
    zero: T,
    q: Seq<T>,
    k: Seq<T>,
    v: Seq<T>,
    mask: Option<Seq<u8>>,
    bias: Option<Seq<T>>,
    out: Seq<T>,
) -> bool where
    M: Fn(T, T) -> T,
    C: Fn(T, T) -> T,
    P: Fn(T, T) -> T,
    G: Fn(T, T) -> bool,
    Q: Fn(T, T) -> bool,
    E: Fn(T, T) -> T,
    R: Fn(T) -> T,
    NT: Fn(&[T], &[T], usize, usize, usize) -> Vec<T>,
    NN: Fn(&[T], &[T], usize, usize, usize) -> Vec<T>,
 {
    if flash {
        flash_head_result(gemm_nt, gemm_nn, mul_fn, softcap_fn, add_fn, gt, eq, exp_shift, recip, p, neg_inf, zero, q, k, v, mask, bias, out)
    } else {
        naive_head_result(gemm_nt, gemm_nn, mul_fn, softcap_fn, add_fn, gt, eq, exp_shift, recip, p, neg_inf, zero, q, k, v, mask, bias, out)
    }
}

/// `out` is the `[batch, heads, seq_q, val_dim]` attention output: when
/// there are query rows, the block of every pair `(b, h)` is what the
/// strategy computes from that pair's query, key and value blocks and its
/// broadcast mask and bias tiles.
pub open spec fn attention_result<T, M, C, P, G, Q, E, R, NT, NN>(
    flash: bool,
    gemm_nt: NT,
    gemm_nn: NN,
    mul_fn: M,
    softcap_fn: C,
    add_fn: P,
    gt: G,
    eq: Q,
    exp_shift: E,
    recip: R,
    query: HostTensor<T>,
    key: HostTensor<T>,
    value: HostTensor<T>,
    mask: Option<HostTensor<u8>>,
    attn_bias: Option<HostTensor<T>>,
    scale: T,
    softcap: Option<T>,
    is_causal: bool,
    neg_inf: T,
    zero: T,
    out: Seq<T>,
) -> bool where
    M: Fn(T, T) -> T,
    C: Fn(T, T) -> T,
    P: Fn(T, T) -> T,
    G: Fn(T, T) -> bool,
    Q: Fn(T, T) -> bool,
    E: Fn(T, T) -> T,
    R: Fn(T) -> T,
    NT: Fn(&[T], &[T], usize, usize, usize) -> Vec<T>,
    NN: Fn(&[T], &[T], usize, usize, usize) -> Vec<T>,
 {
    let qs = query.shape@;
    let ks = key.shape@;
    let vs = value.shape@;
    let p = params_of(qs, ks, vs, scale, softcap, is_causal);
    let target = score_target(qs, ks);
    let heads = qs[1] as int;
    &&& out.len() == qs[0] * qs[1] * p.seq_q * p.val_dim
    &&& p.seq_q > 0 ==> forall|b: int, h: int|
        0 <= b < qs[0] && 0 <= h < heads ==> #[trigger] head_result(
            flash,
            gemm_nt,
            gemm_nn,
            mul_fn,
            softcap_fn,
            add_fn,
            gt,
            eq,
            exp_shift,
            recip,
            p,
            neg_inf,
            zero,
            block(query.data@, b * heads + h, p.seq_q * p.head_dim),
            block(key.data@, b * heads + h, p.seq_kv * p.head_dim),
            block(value.data@, b * heads + h, p.seq_kv * p.val_dim),
            side_tile(mask, target, b, h),
            side_tile(attn_bias, target, b, h),
            block(out, b * heads + h, p.seq_q * p.val_dim),
        )
}

/// What the caller's element operations and products must allow: any
/// operands, and products of the requested `[m, n]` size.
pub open spec fn attention_ops_ready<T, M, C, P, G, Q, E, R, NT, NN>(
    gemm_nt: NT,
    gemm_nn: NN,
    mul_fn: M,
    softcap_fn: C,
    add_fn: P,
    gt: G,
    eq: Q,
    exp_shift: E,
    recip: R,
) -> bool where
    M: Fn(T, T) -> T,
    C: Fn(T, T) -> T,
    P: Fn(T, T) -> T,
    G: Fn(T, T) -> bool,
    Q: Fn(T, T) -> bool,
    E: Fn(T, T) -> T,
    R: Fn(T) -> T,
    NT: Fn(&[T], &[T], usize, usize, usize) -> Vec<T>,
    NN: Fn(&[T], &[T], usize, usize, usize) -> Vec<T>,
 {
    &&& forall|a: T, b: T| call_requires(mul_fn, (a, b))
    &&& forall|a: T, b: T| call_requires(softcap_fn, (a, b))
    &&& forall|a: T, b: T| call_requires(add_fn, (a, b))
    &&& forall|a: T, b: T| call_requires(gt, (a, b))
    &&& forall|a: T, b: T| call_requires(eq, (a, b))
    &&& forall|a: T, b: T| call_requires(exp_shift, (a, b))
    &&& forall|a: T| call_requires(recip, (a,))
    &&& gemm_ready(gemm_nt)
    &&& gemm_ready(gemm_nn)
}

/// The inputs an attention call accepts: well-formed tensors of agreeing
/// shapes, masks and biases that broadcast, and an output that fits.
pub open spec fn attention_inputs_ok<T>(
    query: HostTensor<T>,
    key: HostTensor<T>,
    value: HostTensor<T>,
    mask: Option<HostTensor<u8>>,
    attn_bias: Option<HostTensor<T>>,
) -> bool {
    let qs = query.shape@;
    let ks = key.shape@;
    let vs = value.shape@;
    &&& query.wf()
    &&& key.wf()
    &&& value.wf()
    &&& attention_shapes_ok(qs, ks, vs)
    &&& side_input_ok(mask, score_target(qs, ks))
    &&& side_input_ok(attn_bias, score_target(qs, ks))
    &&& qs[0] * qs[1] * qs[2] * vs[3] <= usize::MAX
    &&& qs[2] + ks[2] <= usize::MAX + 1
}

/// The tile of pair `(b, h)` inside a laid-out mask or bias.
proof fn lemma_side_tile<E>(
    m: HostTensor<E>,
    r: BroadcastMaskBias<E>,
    target: [usize; 4],
    b: int,
    h: int,
)
    requires
        bcast_ready(r, m.data@, m.shape@, target),
        0 <= b < target[0],
        0 <= h < target[1],
    ensures
        0 <= tile_start(r, b, h),
        tile_start(r, b, h) + target[2] * target[3] <= r.tensor.data@.len(),
        r.tensor.data@.subrange(tile_start(r, b, h), tile_start(r, b, h) + target[2] * target[3])
            == side_tile(Option::Some(m), target, b, h)->0,
{
    let start = tile_start(r, b, h);
    let n = target[2] * target[3];
    assert(0 <= start && start + n <= r.tensor.data.len());
    let lhs = r.tensor.data@.subrange(start, start + n);
    let rhs = side_tile(Option::Some(m), target, b, h)->0;
    assert forall|x: int| 0 <= x < n implies #[trigger] lhs[x] == rhs[x] by {
        let t2 = target[2] as int;
        let t3 = target[3] as int;
        assert(t3 > 0) by (nonlinear_arith)
            requires 0 <= x < t2 * t3, t2 >= 0, t3 >= 0;
        lemma_div_lt(x, t2, t3);
        let i = x / t3;
        let j = x % t3;
        assert(bcast_entry(r, m.data@, m.shape@, target, b, h, i, j));
        assert(i * t3 + j == x);
    }
    assert(lhs =~= rhs);
}

/// The shared loop: every `(batch, head)` pair through the chosen strategy,
/// outputs concatenated in `(batch, head)` order.
fn attention_run<T: Copy, M, C, P, G, Q, E, R, NT, NN>(
    flash: bool,
    query: HostTensor<T>,
    key: HostTensor<T>,
    value: HostTensor<T>,
    mask: Option<HostTensor<u8>>,
    attn_bias: Option<HostTensor<T>>,
    scale: T,
    softcap: Option<T>,
    is_causal: bool,
    neg_inf: T,
    zero: T,
    mul_fn: &M,
    softcap_fn: &C,
    add_fn: &P,
    gt: &G,
    eq: &Q,
    exp_shift: &E,
    recip: &R,
    gemm_nt: &NT,
    gemm_nn: &NN,
) -> (r: HostTensor<T>) where
    M: Fn(T, T) -> T,
    C: Fn(T, T) -> T,
    P: Fn(T, T) -> T,
    G: Fn(T, T) -> bool,
    Q: Fn(T, T) -> bool,
    E: Fn(T, T) -> T,
    R: Fn(T) -> T,
    NT: Fn(&[T], &[T], usize, usize, usize) -> Vec<T>,
    NN: Fn(&[T], &[T], usize, usize, usize) -> Vec<T>,

    requires
        attention_inputs_ok(query, key, value, mask, attn_bias),
        attention_ops_ready(*gemm_nt, *gemm_nn, *mul_fn, *softcap_fn, *add_fn, *gt, *eq, *exp_shift, *recip),
        softcap_positive(*gt, zero, softcap),
    ensures
        r.shape@ == seq![query.shape@[0], query.shape@[1], query.shape@[2], value.shape@[3]],
        r.dtype == query.dtype,
        r.wf(),
        attention_result(
            flash,
            *gemm_nt,
            *gemm_nn,
            *mul_fn,
            *softcap_fn,
            *add_fn,
            *gt,
            *eq,
            *exp_shift,
            *recip,
            query,
            key,
            value,
            mask,
            attn_bias,
            scale,
            softcap,
            is_causal,
            neg_inf,
            zero,
            r.data@,
        ),
{
    let ghost qs = query.shape@;
    let ghost ks = key.shape@;
    let ghost vs = value.shape@;
    proof {
        lemma_numel_4(qs);
        lemma_numel_4(ks);
        lemma_numel_4(vs);
    }
    let batch = query.shape[0];
    let heads = query.shape[1];
    let seq_q = query.shape[2];
    let head_dim = query.shape[3];
    let seq_kv = key.shape[2];
    let val_dim = value.shape[3];
    let target = [batch, heads, seq_q, seq_kv];
    let ghost mask_in = mask;
    let ghost bias_in = attn_bias;
    let mask_bcast = match mask {
        Option::Some(m) => Option::Some(broadcast_attn_mask_bias(m, target)),
        Option::None => Option::None,
    };
    let bias_bcast = match attn_bias {
        Option::Some(b) => Option::Some(broadcast_attn_mask_bias(b, target)),
        Option::None => Option::None,
    };
    let p = AttentionParams { scale, softcap, causal: is_causal, seq_q, seq_kv, head_dim, val_dim };
    proof {
        assert(p == params_of(qs, ks, vs, scale, softcap, is_causal));
        assert(target == score_target(qs, ks));
    }
    if batch == 0 || heads == 0 || seq_q == 0 {
        // No query row: the output is empty.
        let r = HostTensor { shape: vec![batch, heads, seq_q, val_dim], data: Vec::new(), dtype: query.dtype };
        proof {
            lemma_numel_4(r.shape@);
            assert(batch * heads * seq_q * val_dim == 0) by (nonlinear_arith)
                requires batch == 0 || heads == 0 || seq_q == 0;
        }
        return r;
    }
    proof {
        assert(batch * heads <= batch * heads * seq_q * head_dim) by (nonlinear_arith)
            requires batch >= 1, heads >= 1, seq_q >= 1, head_dim >= 1;
        assert(seq_q * head_dim <= batch * heads * seq_q * head_dim) by (nonlinear_arith)
            requires batch >= 1, heads >= 1, seq_q >= 1, head_dim >= 1;
        assert(seq_kv * head_dim <= batch * heads * seq_kv * head_dim) by (nonlinear_arith)
            requires batch >= 1, heads >= 1, seq_kv >= 0, head_dim >= 1;
        assert(seq_kv * val_dim <= batch * heads * seq_kv * val_dim) by (nonlinear_arith)
            requires batch >= 1, heads >= 1, seq_kv >= 0, val_dim >= 0;
        assert(seq_q * val_dim <= batch * heads * seq_q * val_dim) by (nonlinear_arith)
            requires batch >= 1, heads >= 1, seq_q >= 1, val_dim >= 0;
    }
    let pairs = batch * heads;
    let q_len = seq_q * head_dim;
    let k_len = seq_kv * head_dim;
    let v_len = seq_kv * val_dim;
    let o_len = seq_q * val_dim;
    proof {
        assert(query.data@.len() == pairs * q_len) by (nonlinear_arith)
            requires query.data@.len() == batch * heads * seq_q * head_dim, pairs == batch * heads, q_len == seq_q * head_dim;
        assert(key.data@.len() == pairs * k_len) by (nonlinear_arith)
            requires key.data@.len() == batch * heads * seq_kv * head_dim, pairs == batch * heads, k_len == seq_kv * head_dim;
        assert(value.data@.len() == pairs * v_len) by (nonlinear_arith)
            requires value.data@.len() == batch * heads * seq_kv * val_dim, pairs == batch * heads, v_len == seq_kv * val_dim;
    }
    let mut out: Vec<T> = Vec::new();
    let mut l: usize = 0;
    while l < pairs
        invariant
            l <= pairs,
            pairs == batch * heads,
            p == params_of(qs, ks, vs, scale, softcap, is_causal),
            target == score_target(qs, ks),
            qs == query.shape@,
            ks == key.shape@,
            vs == value.shape@,
            attention_inputs_ok(query, key, value, mask_in, bias_in),
            attention_ops_ready(*gemm_nt, *gemm_nn, *mul_fn, *softcap_fn, *add_fn, *gt, *eq, *exp_shift, *recip),
            batch == qs[0],
            heads == qs[1],
            seq_q == qs[2],
            seq_kv == ks[2],
            head_dim == qs[3],
            val_dim == vs[3],
            q_len == seq_q * head_dim,
            k_len == seq_kv * head_dim,
            v_len == seq_kv * val_dim,
            o_len == seq_q * val_dim,
            query.data@.len() == pairs * q_len,
            key.data@.len() == pairs * k_len,
            value.data@.len() == pairs * v_len,
            batch * heads * seq_q * val_dim <= usize::MAX,
            out@.len() == l * o_len,
            match mask_bcast {
                Option::Some(r) => mask_in is Some && bcast_ready(r, mask_in->0.data@, mask_in->0.shape@, target),
                Option::None => mask_in is None,
            },
            match bias_bcast {
                Option::Some(r) => bias_in is Some && bcast_ready(r, bias_in->0.data@, bias_in->0.shape@, target),
                Option::None => bias_in is None,
            },
            forall|l2: int|
                0 <= l2 < l ==> #[trigger] head_result(
                    flash,
                    *gemm_nt,
                    *gemm_nn,
                    *mul_fn,
                    *softcap_fn,
                    *add_fn,
                    *gt,
                    *eq,
                    *exp_shift,
                    *recip,
                    p,
                    neg_inf,
                    zero,
                    block(query.data@, l2, q_len as int),
                    block(key.data@, l2, k_len as int),
                    block(value.data@, l2, v_len as int),
                    side_tile(mask_in, target, l2 / heads as int, l2 % heads as int),
                    side_tile(bias_in, target, l2 / heads as int, l2 % heads as int),
                    block(out@, l2, o_len as int),
                ),
        decreases pairs - l,
    {
        proof {
            lemma_div_lt(l as int, batch as int, heads as int);
            assert(l * q_len + q_len <= pairs * q_len) by (nonlinear_arith)
                requires l < pairs, q_len >= 0;
            assert(l * k_len + k_len <= pairs * k_len) by (nonlinear_arith)
                requires l < pairs, k_len >= 0;
            assert(l * v_len + v_len <= pairs * v_len) by (nonlinear_arith)
                requires l < pairs, v_len >= 0;
            assert(0 <= l * q_len && 0 <= l * k_len && 0 <= l * v_len) by (nonlinear_arith)
                requires l >= 0, q_len >= 0, k_len >= 0, v_len >= 0;
            assert(seq_q * val_dim <= usize::MAX) by (nonlinear_arith)
                requires batch * heads * seq_q * val_dim <= usize::MAX, pairs == batch * heads, l < pairs, seq_q >= 0, val_dim >= 0;
        }
        let b = l / heads;
        let h = l % heads;
        let q_off = l * q_len;
        let k_off = l * k_len;
        let v_off = l * v_len;
        let q_head = slice_subrange(query.data.as_slice(), q_off, q_off + q_len);
        let k_head = slice_subrange(key.data.as_slice(), k_off, k_off + k_len);
        let v_head = slice_subrange(value.data.as_slice(), v_off, v_off + v_len);
        let mask_tile: Option<&[u8]> = match &mask_bcast {
            Option::Some(r) => {
                proof {
                    lemma_side_tile(mask_in->0, *r, target, b as int, h as int);
                }
                let start = b * r.batch_step + h * r.head_step;
                let tile_len = seq_q * seq_kv;
                Option::Some(slice_subrange(r.tensor.data.as_slice(), start, start + tile_len))
            },
            Option::None => Option::None,
        };
        let bias_tile: Option<&[T]> = match &bias_bcast {
            Option::Some(r) => {
                proof {
                    lemma_side_tile(bias_in->0, *r, target, b as int, h as int);
                }
                let start = b * r.batch_step + h * r.head_step;
                let tile_len = seq_q * seq_kv;
                Option::Some(slice_subrange(r.tensor.data.as_slice(), start, start + tile_len))
            },
            Option::None => Option::None,
        };
        proof {
            assert(p.seq_q + p.seq_kv <= usize::MAX + 1);
            assert(opt_view(mask_tile) == side_tile(mask_in, target, b as int, h as int));
            assert(opt_view(bias_tile) == side_tile(bias_in, target, b as int, h as int));
        }
        let mut head = if flash {
            flash_attention_head(
                q_head,
                k_head,
                v_head,
                &p,
                mask_tile,
                bias_tile,
                neg_inf,
                zero,
                mul_fn,
                softcap_fn,
                add_fn,
                gt,
                eq,
                exp_shift,
                recip,
                gemm_nt,
                gemm_nn,
            )
        } else {
            naive_attention_head(
                q_head,
                k_head,
                v_head,
                &p,
                mask_tile,
                bias_tile,
                neg_inf,
                zero,
                mul_fn,
                softcap_fn,
                add_fn,
                gt,
                eq,
                exp_shift,
                recip,
                gemm_nt,
                gemm_nn,
            )
        };
        let ghost head_v = head@;
        let ghost before = out@;
        out.append(&mut head);
        proof {
            assert(block(query.data@, l as int, q_len as int) =~= q_head@);
            assert(block(key.data@, l as int, k_len as int) =~= k_head@);
            assert(block(value.data@, l as int, v_len as int) =~= v_head@);
            assert(block(out@, l as int, o_len as int) =~= head_v);
            assert forall|l2: int| 0 <= l2 < l implies #[trigger] block(out@, l2, o_len as int) == block(before, l2, o_len as int) by {
                assert(l2 * o_len + o_len <= l * o_len) by (nonlinear_arith)
                    requires l2 < l, o_len >= 0;
                assert(0 <= l2 * o_len) by (nonlinear_arith)
                    requires l2 >= 0, o_len >= 0;
                assert(block(out@, l2, o_len as int) =~= block(before, l2, o_len as int));
            }
            assert(out@.len() == (l + 1) * o_len) by (nonlinear_arith)
                requires out@.len() == l * o_len + o_len;
        }
        l = l + 1;
    }
    proof {
        assert(out@.len() == batch * heads * seq_q * val_dim) by (nonlinear_arith)
            requires out@.len() == pairs * o_len, pairs == batch * heads, o_len == seq_q * val_dim;
        assert forall|b: int, h: int| 0 <= b < batch && 0 <= h < heads implies #[trigger] head_result(
            flash,
            *gemm_nt,
            *gemm_nn,
            *mul_fn,
            *softcap_fn,
            *add_fn,
            *gt,
            *eq,
            *exp_shift,
            *recip,
            p,
            neg_inf,
            zero,
            block(query.data@, b * heads + h, p.seq_q * p.head_dim),
            block(key.data@, b * heads + h, p.seq_kv * p.head_dim),
            block(value.data@, b * heads + h, p.seq_kv * p.val_dim),
            side_tile(mask_in, target, b, h),
            side_tile(attn_bias, target, b, h),
            block(out@, b * heads + h, p.seq_q * p.val_dim),
        ) by {
            let l2 = b * heads + h;
            lemma_offset2(b, h, batch as int, heads as int);
            lemma_div_mod_offset(b, h, heads as int);
        }
    }
    let shape = vec![batch, heads, seq_q, val_dim];
    let r = HostTensor { shape, data: out, dtype: query.dtype };
    proof {
        lemma_numel_4(r.shape@);
    }
    r
}

} // verus!

verus! {

/// A soft cap, when there is one, is positive: `gt` can only report it
/// greater than `zero`.
pub open spec fn softcap_positive<T, G: Fn(T, T) -> bool>(gt: G, zero: T, softcap: Option<T>) -> bool {
    softcap matches Option::Some(c) ==> forall|b: bool| call_ensures(gt, (c, zero), b) ==> b
}

/// Naive attention: per `(batch, head)` pair the whole `[seq_q, seq_kv]`
/// score matrix `Q @ K^T` (through `gemm_nt`), scaled by `scale`, capped by
/// `softcap_fn` when `softcap` is set, hidden where the mask is non-zero or
/// (when `is_causal`) after the causal cut-off, biased, softmaxed row by row
/// (all-hidden rows become zero), then multiplied by `V` (through
/// `gemm_nn`).
pub fn attention_naive<T: Copy, M, C, P, G, Q, E, R, NT, NN>(
    query: HostTensor<T>,
    key: HostTensor<T>,
    value: HostTensor<T>,
    mask: Option<HostTensor<u8>>,
    attn_bias: Option<HostTensor<T>>,
    scale: T,
    softcap: Option<T>,
    is_causal: bool,
    neg_inf: T,
    zero: T,
    mul_fn: &M,
    softcap_fn: &C,
    add_fn: &P,
    gt: &G,
    eq: &Q,
    exp_shift: &E,
    recip: &R,
    gemm_nt: &NT,
    gemm_nn: &NN,
) -> (r: HostTensor<T>) where
    M: Fn(T, T) -> T,
    C: Fn(T, T) -> T,
    P: Fn(T, T) -> T,
    G: Fn(T, T) -> bool,
    Q: Fn(T, T) -> bool,
    E: Fn(T, T) -> T,
    R: Fn(T) -> T,
    NT: Fn(&[T], &[T], usize, usize, usize) -> Vec<T>,
    NN: Fn(&[T], &[T], usize, usize, usize) -> Vec<T>,

    requires
        attention_inputs_ok(query, key, value, mask, attn_bias),
        attention_ops_ready(*gemm_nt, *gemm_nn, *mul_fn, *softcap_fn, *add_fn, *gt, *eq, *exp_shift, *recip),
        softcap_positive(*gt, zero, softcap),
    ensures
        r.shape@ == seq![query.shape@[0], query.shape@[1], query.shape@[2], value.shape@[3]],
        r.dtype == query.dtype,
        r.wf(),
        attention_result(
            false,
            *gemm_nt,
            *gemm_nn,
            *mul_fn,
            *softcap_fn,
            *add_fn,
            *gt,
            *eq,
            *exp_shift,
            *recip,
            query,
            key,
            value,
            mask,
            attn_bias,
            scale,
            softcap,
            is_causal,
            neg_inf,
            zero,
            r.data@,
        ),
{
    attention_run(
        false,
        query,
        key,
        value,
        mask,
        attn_bias,
        scale,
        softcap,
        is_causal,
        neg_inf,
        zero,
        mul_fn,
        softcap_fn,
        add_fn,
        gt,
        eq,
        exp_shift,
        recip,
        gemm_nt,
        gemm_nn,
    )
}

/// Flash attention: the same scores as `attention_naive`, consumed in key
/// tiles of `TILE_KV` with an online softmax (running maximum, running sum
/// and a rescaled output accumulator per query row), each row divided by
/// its sum at the end.
pub fn attention_flash<T: Copy, M, C, P, G, Q, E, R, NT, NN>(
    query: HostTensor<T>,
    key: HostTensor<T>,
    value: HostTensor<T>,
    mask: Option<HostTensor<u8>>,
    attn_bias: Option<HostTensor<T>>,
    scale: T,
    softcap: Option<T>,
    is_causal: bool,
    neg_inf: T,
    zero: T,
    mul_fn: &M,
    softcap_fn: &C,
    add_fn: &P,
    gt: &G,
    eq: &Q,
    exp_shift: &E,
    recip: &R,
    gemm_nt: &NT,
    gemm_nn: &NN,
) -> (r: HostTensor<T>) where
    M: Fn(T, T) -> T,
    C: Fn(T, T) -> T,
    P: Fn(T, T) -> T,
    G: Fn(T, T) -> bool,
    Q: Fn(T, T) -> bool,
    E: Fn(T, T) -> T,
    R: Fn(T) -> T,
    NT: Fn(&[T], &[T], usize, usize, usize) -> Vec<T>,
    NN: Fn(&[T], &[T], usize, usize, usize) -> Vec<T>,

    requires
        attention_inputs_ok(query, key, value, mask, attn_bias),
        attention_ops_ready(*gemm_nt, *gemm_nn, *mul_fn, *softcap_fn, *add_fn, *gt, *eq, *exp_shift, *recip),
        softcap_positive(*gt, zero, softcap),
    ensures
        r.shape@ == seq![query.shape@[0], query.shape@[1], query.shape@[2], value.shape@[3]],
        r.dtype == query.dtype,
        r.wf(),
        attention_result(
            true,
            *gemm_nt,
            *gemm_nn,
            *mul_fn,
            *softcap_fn,
            *add_fn,
            *gt,
            *eq,
            *exp_shift,
            *recip,
            query,
            key,
            value,
            mask,
            attn_bias,
            scale,
            softcap,
            is_causal,
            neg_inf,
            zero,
            r.data@,
        ),
{
    attention_run(
        true,
        query,
        key,
        value,
        mask,
        attn_bias,
        scale,
        softcap,
        is_causal,
        neg_inf,
        zero,
        mul_fn,
        softcap_fn,
        add_fn,
        gt,
        eq,
        exp_shift,
        recip,
        gemm_nt,
        gemm_nn,
    )
}

/// Whether `attention` takes the naive strategy: the score matrix of a head
/// holds at most `NAIVE_SCORE_BUDGET` elements.
pub open spec fn uses_naive(seq_q: int, seq_kv: int) -> bool {
    seq_q * seq_kv <= NAIVE_SCORE_BUDGET
}

/// `seq_q * seq_kv <= NAIVE_SCORE_BUDGET`, decided without forming the
/// product.
fn score_matrix_fits(seq_q: usize, seq_kv: usize) -> (r: bool)
    ensures
        r == uses_naive(seq_q as int, seq_kv as int),
{
    if seq_kv == 0 {
        return true;
    }
    let limit = NAIVE_SCORE_BUDGET / seq_kv;
    proof {
        let b = NAIVE_SCORE_BUDGET as int;
        let k = seq_kv as int;
        vstd::arithmetic::div_mod::lemma_fundamental_div_mod(b, k);
        assert(0 <= b % k < k) by {
            vstd::arithmetic::div_mod::lemma_mod_bound(b, k);
        }
        if seq_q <= limit {
            assert(seq_q * k <= (b / k) * k) by (nonlinear_arith)
                requires seq_q <= b / k, k > 0;
            assert((b / k) * k == k * (b / k)) by (nonlinear_arith);
        } else {
            assert(seq_q * k >= (b / k + 1) * k) by (nonlinear_arith)
                requires seq_q >= b / k + 1, k > 0;
            assert((b / k + 1) * k == k * (b / k) + k) by (nonlinear_arith);
        }
    }
    seq_q <= limit
}

/// Attention with the strategy chosen by size: naive when a head's score
/// matrix fits in `NAIVE_SCORE_BUDGET` elements, flash otherwise.
pub fn attention<T: Copy, M, C, P, G, Q, E, R, NT, NN>(
    query: HostTensor<T>,
    key: HostTensor<T>,
    value: HostTensor<T>,
    mask: Option<HostTensor<u8>>,
    attn_bias: Option<HostTensor<T>>,
    scale: T,
    softcap: Option<T>,
    is_causal: bool,
    neg_inf: T,
    zero: T,
    mul_fn: &M,
    softcap_fn: &C,
    add_fn: &P,
    gt: &G,
    eq: &Q,
    exp_shift: &E,
    recip: &R,
    gemm_nt: &NT,
    gemm_nn: &NN,
) -> (r: HostTensor<T>) where
    M: Fn(T, T) -> T,
    C: Fn(T, T) -> T,
    P: Fn(T, T) -> T,
    G: Fn(T, T) -> bool,
    Q: Fn(T, T) -> bool,
    E: Fn(T, T) -> T,
    R: Fn(T) -> T,
    NT: Fn(&[T], &[T], usize, usize, usize) -> Vec<T>,
    NN: Fn(&[T], &[T], usize, usize, usize) -> Vec<T>,

    requires
        attention_inputs_ok(query, key, value, mask, attn_bias),
        attention_ops_ready(*gemm_nt, *gemm_nn, *mul_fn, *softcap_fn, *add_fn, *gt, *eq, *exp_shift, *recip),
        softcap_positive(*gt, zero, softcap),
    ensures
        r.shape@ == seq![query.shape@[0], query.shape@[1], query.shape@[2], value.shape@[3]],
        r.dtype == query.dtype,
        r.wf(),
        attention_result(
            !uses_naive(query.shape@[2] as int, key.shape@[2] as int),
            *gemm_nt,
            *gemm_nn,
            *mul_fn,
            *softcap_fn,
            *add_fn,
            *gt,
            *eq,
            *exp_shift,
            *recip,
            query,
            key,
            value,
            mask,
            attn_bias,
            scale,
            softcap,
            is_causal,
            neg_inf,
            zero,
            r.data@,
        ),
{
    let seq_q = query.shape[2];
    let seq_kv = key.shape[2];
    if score_matrix_fits(seq_q, seq_kv) {
        return attention_naive(
            query,
        key,
        value,
        mask,
        attn_bias,
        scale,
        softcap,
        is_causal,
        neg_inf,
        zero,
        mul_fn,
        softcap_fn,
        add_fn,
        gt,
        eq,
        exp_shift,
        recip,
        gemm_nt,
        gemm_nn,
        );
    }
    attention_flash(
        query,
        key,
        value,
        mask,
        attn_bias,
        scale,
        softcap,
        is_causal,
        neg_inf,
        zero,
        mul_fn,
        softcap_fn,
        add_fn,
        gt,
        eq,
        exp_shift,
        recip,
        gemm_nt,
        gemm_nn,
    )
}

/// Every element of `tensor` through `conv`, same shape, tagged `dtype`.
fn map_elements<E: Copy, F, K: Fn(E) -> F>(tensor: HostTensor<E>, conv: &K, dtype: DType) -> (r: HostTensor<F>)
    requires
        forall|e: E| call_requires(*conv, (e,)),
    ensures
        r.shape@ == tensor.shape@,
        r.dtype == dtype,
        r.data@.len() == tensor.data@.len(),
        forall|i: int| 0 <= i < tensor.data@.len() ==> call_ensures(*conv, (tensor.data@[i],), #[trigger] r.data@[i]),
{
    let mut data: Vec<F> = Vec::new();
    let mut i: usize = 0;
    while i < tensor.data.len()
        invariant
            i <= tensor.data@.len(),
            data@.len() == i,
            forall|j: int| 0 <= j < i ==> call_ensures(*conv, (tensor.data@[j],), #[trigger] data@[j]),
            forall|e: E| call_requires(*conv, (e,)),
        decreases tensor.data@.len() - i,
    {
        let w = conv(tensor.data[i]);
        data.push(w);
        i = i + 1;
    }
    HostTensor { shape: tensor.shape, data, dtype }
}

/// Widens every element of a half-precision tensor for computation; the
/// result is tagged `F32`.
pub fn cast_to_f32<E: Copy, F, K: Fn(E) -> F>(tensor: HostTensor<E>, to_f32: &K) -> (r: HostTensor<F>)
    requires
        forall|e: E| call_requires(*to_f32, (e,)),
    ensures
        r.shape@ == tensor.shape@,
        r.dtype == DType::F32,
        r.data@.len() == tensor.data@.len(),
        forall|i: int| 0 <= i < tensor.data@.len() ==> call_ensures(*to_f32, (tensor.data@[i],), #[trigger] r.data@[i]),
{
    map_elements(tensor, to_f32, DType::F32)
}

/// Narrows every element of a computed tensor back to the storage type
/// tagged `dtype`.
pub fn cast_from_f32<F: Copy, E, K: Fn(F) -> E>(tensor: HostTensor<F>, from_f32: &K, dtype: DType) -> (r: HostTensor<E>)
    requires
        forall|x: F| call_requires(*from_f32, (x,)),
    ensures
        r.shape@ == tensor.shape@,
        r.dtype == dtype,
        r.data@.len() == tensor.data@.len(),
        forall|i: int| 0 <= i < tensor.data@.len() ==> call_ensures(*from_f32, (tensor.data@[i],), #[trigger] r.data@[i]),
{
    map_elements(tensor, from_f32, dtype)
}

} // verus!

verus! {

/// A mask or bias given with broadcast extents is seen by every
/// `(batch, head)` pair exactly as its expansion to the full
/// `[batch, heads, seq_q, seq_kv]` shape.
pub proof fn lemma_broadcast_matches_expansion<E>(src: HostTensor<E>, full: HostTensor<E>, target: [usize; 4])
    requires
        src.wf(),
        bcast_compatible(src.shape@, target),
        full.shape@ == seq![target[0], target[1], target[2], target[3]],
        full.wf(),
        forall|b: int, h: int, i: int, j: int|
            0 <= b < target[0] && 0 <= h < target[1] && 0 <= i < target[2] && 0 <= j < target[3]
                ==> full.data@[super::flat4(b, h, i, j, target[1] as int, target[2] as int, target[3] as int)]
                == #[trigger] src.data@[bcast_source_index(src.shape@, b, h, i, j)],
    ensures
        forall|b: int, h: int|
            0 <= b < target[0] && 0 <= h < target[1] ==> #[trigger] side_tile(Option::Some(src), target, b, h)
                == side_tile(Option::Some(full), target, b, h),
{
    assert forall|b: int, h: int| 0 <= b < target[0] && 0 <= h < target[1] implies #[trigger] side_tile(
        Option::Some(src),
        target,
        b,
        h,
    ) == side_tile(Option::Some(full), target, b, h) by {
        let t2 = target[2] as int;
        let t3 = target[3] as int;
        let lhs = side_tile(Option::Some(src), target, b, h)->0;
        let rhs = side_tile(Option::Some(full), target, b, h)->0;
        assert forall|x: int| 0 <= x < t2 * t3 implies #[trigger] lhs[x] == rhs[x] by {
            assert(t3 > 0) by (nonlinear_arith)
                requires 0 <= x < t2 * t3, t2 >= 0, t3 >= 0;
            lemma_div_lt(x, t2, t3);
            let i = x / t3;
            let j = x % t3;
            let fs = full.shape@;
            assert(bcast_source_index(fs, b, h, i, j) == super::flat4(b, h, i, j, target[1] as int, t2, t3));
            assert(full.data@[super::flat4(b, h, i, j, target[1] as int, t2, t3)] == src.data@[bcast_source_index(
                src.shape@,
                b,
                h,
                i,
                j,
            )]);
        }
        assert(lhs =~= rhs);
    }
}

/// Attention depends on a mask and a bias only through the tiles the
/// `(batch, head)` pairs see: two masks and two biases with the same tiles
/// give the same result, whichever strategy runs.
pub proof fn lemma_attention_sees_only_tiles<T, M, C, P, G, Q, E, R, NT, NN>(
    flash: bool,
    gemm_nt: NT,
    gemm_nn: NN,
    mul_fn: M,
    softcap_fn: C,
    add_fn: P,
    gt: G,
    eq: Q,
    exp_shift: E,
    recip: R,
    query: HostTensor<T>,
    key: HostTensor<T>,
    value: HostTensor<T>,
    mask1: Option<HostTensor<u8>>,
    mask2: Option<HostTensor<u8>>,
    bias1: Option<HostTensor<T>>,
    bias2: Option<HostTensor<T>>,
    scale: T,
    softcap: Option<T>,
    is_causal: bool,
    neg_inf: T,
    zero: T,
    out: Seq<T>,
) where
    M: Fn(T, T) -> T,
    C: Fn(T, T) -> T,
    P: Fn(T, T) -> T,
    G: Fn(T, T) -> bool,
    Q: Fn(T, T) -> bool,
    E: Fn(T, T) -> T,
    R: Fn(T) -> T,
    NT: Fn(&[T], &[T], usize, usize, usize) -> Vec<T>,
    NN: Fn(&[T], &[T], usize, usize, usize) -> Vec<T>,

    requires
        forall|b: int, h: int|
            0 <= b < query.shape@[0] && 0 <= h < query.shape@[1] ==> #[trigger] side_tile(
                mask1,
                score_target(query.shape@, key.shape@),
                b,
                h,
            ) == side_tile(mask2, score_target(query.shape@, key.shape@), b, h) && side_tile(
                bias1,
                score_target(query.shape@, key.shape@),
                b,
                h,
            ) == side_tile(bias2, score_target(query.shape@, key.shape@), b, h),
    ensures
        attention_result(
            flash,
            gemm_nt,
            gemm_nn,
            mul_fn,
            softcap_fn,
            add_fn,
            gt,
            eq,
            exp_shift,
            recip,
            query,
            key,
            value,
            mask1,
            bias1,
            scale,
            softcap,
            is_causal,
            neg_inf,
            zero,
            out,
        ) == attention_result(
            flash,
            gemm_nt,
            gemm_nn,
            mul_fn,
            softcap_fn,
            add_fn,
            gt,
            eq,
            exp_shift,
            recip,
            query,
            key,
            value,
            mask2,
            bias2,
            scale,
            softcap,
            is_causal,
            neg_inf,
            zero,
            out,
        ),
{
    let target = score_target(query.shape@, key.shape@);
    assert forall|b: int, h: int| 0 <= b < query.shape@[0] && 0 <= h < query.shape@[1] implies side_tile(mask1, target, b, h)
        == side_tile(mask2, target, b, h) && side_tile(bias1, target, b, h) == side_tile(bias2, target, b, h) by {
        assert(side_tile(mask1, target, b, h) == side_tile(mask2, target, b, h));
    }
}


/// `full` is the dense `[batch, heads, seq_q, seq_kv]` expansion of the
/// broadcastable `src` (or both are absent).
pub open spec fn expansion_of<E>(src: Option<HostTensor<E>>, full: Option<HostTensor<E>>, target: [usize; 4]) -> bool {
    match (src, full) {
        (Option::None, Option::None) => true,
        (Option::Some(s), Option::Some(f)) => {
            &&& s.wf()
            &&& bcast_compatible(s.shape@, target)
            &&& f.shape@ == seq![target[0], target[1], target[2], target[3]]
            &&& f.wf()
            &&& forall|b: int, h: int, i: int, j: int|
                0 <= b < target[0] && 0 <= h < target[1] && 0 <= i < target[2] && 0 <= j < target[3]
                    ==> f.data@[super::flat4(b, h, i, j, target[1] as int, target[2] as int, target[3] as int)]
                    == #[trigger] s.data@[bcast_source_index(s.shape@, b, h, i, j)]
        },
        _ => false,
    }
}

/// Broadcast masks and biases give the same attention as their dense
/// expansions: whichever strategy runs, an output is a result of the call
/// with the broadcast inputs exactly when it is one of the call with the
/// expanded inputs.
pub proof fn lemma_broadcast_inputs_same_result<T, M, C, P, G, Q, E, R, NT, NN>(
    flash: bool,
    gemm_nt: NT,
    gemm_nn: NN,
    mul_fn: M,
    softcap_fn: C,
    add_fn: P,
    gt: G,
    eq: Q,
    exp_shift: E,
    recip: R,
    query: HostTensor<T>,
    key: HostTensor<T>,
    value: HostTensor<T>,
    mask: Option<HostTensor<u8>>,
    full_mask: Option<HostTensor<u8>>,
    bias: Option<HostTensor<T>>,
    full_bias: Option<HostTensor<T>>,
    scale: T,
    softcap: Option<T>,
    is_causal: bool,
    neg_inf: T,
    zero: T,
    out: Seq<T>,
) where
    M: Fn(T, T) -> T,
    C: Fn(T, T) -> T,
    P: Fn(T, T) -> T,
    G: Fn(T, T) -> bool,
    Q: Fn(T, T) -> bool,
    E: Fn(T, T) -> T,
    R: Fn(T) -> T,
    NT: Fn(&[T], &[T], usize, usize, usize) -> Vec<T>,
    NN: Fn(&[T], &[T], usize, usize, usize) -> Vec<T>,

    requires
        expansion_of(mask, full_mask, score_target(query.shape@, key.shape@)),
        expansion_of(bias, full_bias, score_target(query.shape@, key.shape@)),
        query.shape@.len() == 4,
        key.shape@.len() == 4,
    ensures
        attention_result(flash, gemm_nt, gemm_nn, mul_fn, softcap_fn, add_fn, gt, eq, exp_shift, recip, query, key,
            value, mask, bias, scale, softcap, is_causal, neg_inf, zero, out)
            == attention_result(flash, gemm_nt, gemm_nn, mul_fn, softcap_fn, add_fn, gt, eq, exp_shift, recip, query,
            key, value, full_mask, full_bias, scale, softcap, is_causal, neg_inf, zero, out),
{
    let target = score_target(query.shape@, key.shape@);
    if let (Option::Some(m), Option::Some(fm)) = (mask, full_mask) {
        lemma_broadcast_matches_expansion(m, fm, target);
    }
    if let (Option::Some(bb), Option::Some(fb)) = (bias, full_bias) {
        lemma_broadcast_matches_expansion(bb, fb, target);
    }
    assert forall|b: int, h: int| 0 <= b < query.shape@[0] && 0 <= h < query.shape@[1] implies #[trigger] side_tile(
        mask,
        target,
        b,
        h,
    ) == side_tile(full_mask, target, b, h) && side_tile(bias, target, b, h) == side_tile(full_bias, target, b, h) by {
        assert(target[0] == query.shape@[0] && target[1] == query.shape@[1]);
    }
    lemma_attention_sees_only_tiles(flash, gemm_nt, gemm_nn, mul_fn, softcap_fn, add_fn, gt, eq, exp_shift, recip,
        query, key, value, mask, full_mask, bias, full_bias, scale, softcap, is_causal, neg_inf, zero, out);
}

} // verus!
