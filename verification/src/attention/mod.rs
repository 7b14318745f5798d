//! Scaled dot-product attention over `[batch, heads, seq, dim]` tensors:
//! `softmax(Q @ K^T * scale + bias) @ V`, with an optional soft cap, a
//! boolean mask and a causal cut-off.
//!
//! Two strategies share the outer loop over `(batch, head)` pairs: the
//! naive one materializes the whole `[seq_q, seq_kv]` score matrix of a
//! head, the flash one walks the keys in tiles of `TILE_KV` with an online
//! softmax. Element arithmetic and the two matrix products are supplied by
//! the caller.
pub mod score;
pub mod naive;
pub mod flash;
pub mod run;

use vstd::prelude::*;
use crate::arith::{lemma_div_mod_offset, lemma_offset2};
use crate::tensor::{HostTensor, lemma_numel_4};

verus! {

/// Key/value tile length of the flash strategy.
pub const TILE_KV: usize = 64;

/// Largest `seq_q * seq_kv` score matrix for which `attention` takes the
/// naive strategy.
pub const NAIVE_SCORE_BUDGET: usize = 256 * 1024;

/// What a single `(batch, head)` computation needs to know.
#[derive(Clone, Copy)]
pub struct AttentionParams<T> {
    pub scale: T,
    pub softcap: Option<T>,
    pub causal: bool,
    pub seq_q: usize,
    pub seq_kv: usize,
    pub head_dim: usize,
    pub val_dim: usize,
}

/// A mask or bias laid out for the inner loop: the `[seq_q, seq_kv]` tile of
/// the pair `(b, h)` starts at `b * batch_step + h * head_step` in
/// `tensor.data`.
pub struct BroadcastMaskBias<E> {
    pub tensor: HostTensor<E>,
    pub batch_step: usize,
    pub head_step: usize,
}

/// A four-dimensional shape each of whose extents is the target's or 1.
pub open spec fn bcast_compatible(s: Seq<usize>, target: [usize; 4]) -> bool {
    &&& s.len() == 4
    &&& forall|d: int| 0 <= d < 4 ==> (s[d] == target[d] || s[d] == 1)
}

/// The coordinate read along an axis of extent `extent` for target
/// coordinate `x`: an axis of extent 1 is read at 0.
pub open spec fn bcast_coord(extent: usize, x: int) -> int {
    if extent == 1 {
        0
    } else {
        x
    }
}

/// Row-major offset of `(a, b, c, d)` in a `[_, n1, n2, n3]` buffer.
pub open spec fn flat4(a: int, b: int, c: int, d: int, n1: int, n2: int, n3: int) -> int {
    ((a * n1 + b) * n2 + c) * n3 + d
}

/// Where the broadcast source of shape `s` holds the value of target
/// position `(b, h, i, j)`.
pub open spec fn bcast_source_index(s: Seq<usize>, b: int, h: int, i: int, j: int) -> int {
    flat4(
        bcast_coord(s[0], b),
        bcast_coord(s[1], h),
        bcast_coord(s[2], i),
        bcast_coord(s[3], j),
        s[1] as int,
        s[2] as int,
        s[3] as int,
    )
}

/// Start of the tile of the pair `(b, h)`.
pub open spec fn tile_start<E>(r: BroadcastMaskBias<E>, b: int, h: int) -> int {
    b * r.batch_step + h * r.head_step
}

/// The tile of `(b, h)` holds at `(i, j)` the broadcast source value.
pub open spec fn bcast_entry<E>(
    r: BroadcastMaskBias<E>,
    src: Seq<E>,
    s: Seq<usize>,
    target: [usize; 4],
    b: int,
    h: int,
    i: int,
    j: int,
) -> bool {
    r.tensor.data@[tile_start(r, b, h) + i * target[3] + j] == src[bcast_source_index(s, b, h, i, j)]
}

/// `r` presents the source `src` of shape `s` broadcast to `target`: every
/// tile lies inside the buffer and holds the broadcast values.
pub open spec fn bcast_ready<E>(r: BroadcastMaskBias<E>, src: Seq<E>, s: Seq<usize>, target: [usize; 4]) -> bool {
    &&& r.batch_step >= 0
    &&& forall|b: int, h: int|
        0 <= b < target[0] && 0 <= h < target[1] ==> 0 <= #[trigger] tile_start(r, b, h) && tile_start(r, b, h)
            + target[2] * target[3] <= r.tensor.data.len()
    &&& forall|b: int, h: int, i: int, j: int|
        0 <= b < target[0] && 0 <= h < target[1] && 0 <= i < target[2] && 0 <= j < target[3]
            ==> #[trigger] bcast_entry(r, src, s, target, b, h, i, j)
}

/// The source's trailing `[seq_q, seq_kv]` extents are the target's, so
/// each of its tiles is already whole.
pub open spec fn trailing_whole(s: Seq<usize>, target: [usize; 4]) -> bool {
    s[2] == target[2] && s[3] == target[3]
}

/// Offsets of a four-dimensional row-major buffer and their decomposition.
pub proof fn lemma_flat4(a: int, b: int, c: int, d: int, n0: int, n1: int, n2: int, n3: int)
    requires
        0 <= a < n0,
        0 <= b < n1,
        0 <= c < n2,
        0 <= d < n3,
    ensures
        0 <= a * n1 + b < n0 * n1,
        0 <= (a * n1 + b) * n2 + c < n0 * n1 * n2,
        0 <= flat4(a, b, c, d, n1, n2, n3) < n0 * n1 * n2 * n3,
        flat4(a, b, c, d, n1, n2, n3) % n3 == d,
        flat4(a, b, c, d, n1, n2, n3) / n3 == (a * n1 + b) * n2 + c,
        ((a * n1 + b) * n2 + c) % n2 == c,
        ((a * n1 + b) * n2 + c) / n2 == a * n1 + b,
        (a * n1 + b) % n1 == b,
        (a * n1 + b) / n1 == a,
        flat4(a, b, c, d, n1, n2, n3) == a * (n1 * n2 * n3) + b * (n2 * n3) + c * n3 + d,
{
    lemma_offset2(a, b, n0, n1);
    lemma_offset2(a * n1 + b, c, n0 * n1, n2);
    lemma_offset2((a * n1 + b) * n2 + c, d, n0 * n1 * n2, n3);
    lemma_div_mod_offset((a * n1 + b) * n2 + c, d, n3);
    lemma_div_mod_offset(a * n1 + b, c, n2);
    lemma_div_mod_offset(a, b, n1);
    let x = a * n1 + b;
    assert((x * n2 + c) * n3 == x * n2 * n3 + c * n3) by (nonlinear_arith);
    assert(x * n2 * n3 == x * (n2 * n3)) by (nonlinear_arith);
    assert(x * (n2 * n3) == a * n1 * (n2 * n3) + b * (n2 * n3)) by (nonlinear_arith)
        requires x == a * n1 + b;
    assert(a * n1 * (n2 * n3) == a * (n1 * n2 * n3)) by (nonlinear_arith);
}

/// Lays out an attention mask or bias of shape `[b?, h?, seq_q?, seq_kv?]`
/// for the `target` shape `[batch, heads, seq_q, seq_kv]`, where each
/// extent is the target's or 1.
///
/// The buffer holds each distinct `[seq_q, seq_kv]` tile once, the tiles of
/// the source's leading extents in order: a leading extent of 1 gets a step
/// of 0, so every pair re-reads the same tile. When the trailing two
/// extents match, the source is that buffer already; otherwise its tiles
/// are expanded over the trailing axes, and an empty target expands to
/// nothing.
pub fn broadcast_attn_mask_bias<E: Copy>(tensor: HostTensor<E>, target: [usize; 4]) -> (r: BroadcastMaskBias<E>)
    requires
        tensor.wf(),
        bcast_compatible(tensor.shape@, target),
        target[0] * target[1] * target[2] * target[3] <= usize::MAX,
    ensures
        bcast_ready(r, tensor.data@, tensor.shape@, target),
        r.tensor.dtype == tensor.dtype,
        trailing_whole(tensor.shape@, target) ==> r.tensor.data@ == tensor.data@,
        !trailing_whole(tensor.shape@, target) ==> r.tensor.data@.len() == (if target[0] * target[1] * target[2]
            * target[3] == 0 {
            0
        } else {
            tensor.shape@[0] * tensor.shape@[1] * (target[2] * target[3])
        }),
        target[0] * target[1] * target[2] * target[3] > 0 ==> r.batch_step == (if tensor.shape@[0] == 1 {
            0
        } else {
            tensor.shape@[1] * (target[2] * target[3])
        }),
        target[0] * target[1] * target[2] * target[3] > 0 ==> r.head_step == (if tensor.shape@[1] == 1 {
            0
        } else {
            target[2] * target[3]
        }),
{
    let ghost s = tensor.shape@;
    let ghost src = tensor.data@;
    proof {
        lemma_numel_4(s);
    }
    let s0 = tensor.shape[0];
    let s1 = tensor.shape[1];
    let s2 = tensor.shape[2];
    let s3 = tensor.shape[3];
    let t0 = target[0];
    let t1 = target[1];
    let t2 = target[2];
    let t3 = target[3];
    proof {
        assert(s0 == t0 || s0 == 1);
        assert(s1 == t1 || s1 == 1);
        assert(s2 == t2 || s2 == 1);
        assert(s3 == t3 || s3 == 1);
    }
    if t0 == 0 || t1 == 0 || t2 == 0 || t3 == 0 {
        // No pair reads an element; a broadcast trailing tile expands to nothing.
        let tensor = if s2 != t2 || s3 != t3 {
            HostTensor { shape: vec![t0, t1, t2, t3], data: Vec::new(), dtype: tensor.dtype }
        } else {
            tensor
        };
        let r = BroadcastMaskBias { tensor, batch_step: 0, head_step: 0 };
        proof {
            assert(t0 * t1 * t2 * t3 == 0) by (nonlinear_arith)
                requires t0 == 0 || t1 == 0 || t2 == 0 || t3 == 0;
            assert(t2 * t3 == 0 || t0 == 0 || t1 == 0) by (nonlinear_arith)
                requires t0 == 0 || t1 == 0 || t2 == 0 || t3 == 0;
            assert forall|b: int, h: int| 0 <= b < t0 && 0 <= h < t1 implies 0 <= #[trigger] tile_start(r, b, h) && tile_start(r, b, h)
                + t2 * t3 <= r.tensor.data.len() by {
                assert(b * r.batch_step + h * r.head_step == 0) by (nonlinear_arith)
                    requires r.batch_step == 0, r.head_step == 0;
            }
        }
        return r;
    }
    proof {
        assert(s0 >= 1 && s1 >= 1) by (nonlinear_arith)
            requires s0 == t0 || s0 == 1, s1 == t1 || s1 == 1, t0 >= 1, t1 >= 1;
        assert(s0 * s1 <= t0 * t1) by (nonlinear_arith)
            requires 1 <= s0 <= t0, 1 <= s1 <= t1;
        assert(t0 * t1 <= t0 * t1 * t2 * t3) by (nonlinear_arith)
            requires t0 >= 1, t1 >= 1, t2 >= 1, t3 >= 1;
        assert(s0 * s1 * (t2 * t3) <= t0 * t1 * t2 * t3) by (nonlinear_arith)
            requires s0 * s1 <= t0 * t1, t2 >= 1, t3 >= 1, s0 * s1 >= 0;
        assert(s1 * (t2 * t3) <= s0 * s1 * (t2 * t3)) by (nonlinear_arith)
            requires s0 >= 1, s1 >= 0, t2 >= 0, t3 >= 0;
        assert(t2 * t3 <= s1 * (t2 * t3)) by (nonlinear_arith)
            requires s1 >= 1, t2 >= 0, t3 >= 0;
    }
    let tile_len = t2 * t3;
    let batch_step: usize = if s0 == 1 { 0 } else { s1 * tile_len };
    let head_step: usize = if s1 == 1 { 0 } else { tile_len };
    // The tiles of the source's leading extents, in order, as `[s0, s1, t2, t3]`.
    let laid = if s2 != t2 || s3 != t3 {
        let total = s0 * s1 * tile_len;
        proof {
            assert(total == s0 * s1 * t2 * t3) by (nonlinear_arith)
                requires total == s0 * s1 * (t2 * t3);
        }
        let mut data: Vec<E> = Vec::new();
        let mut u: usize = 0;
        while u < total
            invariant
                u <= total,
                total == s0 * s1 * t2 * t3,
                data.len() == u,
                s == tensor.shape@,
                tensor.data.len() == s0 * s1 * s2 * s3,
                s0 == s[0] && s1 == s[1] && s2 == s[2] && s3 == s[3],
                t0 == target[0] && t1 == target[1] && t2 == target[2] && t3 == target[3],
                t2 > 0 && t3 > 0 && s0 > 0 && s1 > 0,
                bcast_compatible(s, target),
                forall|v: int|
                    0 <= v < u ==> #[trigger] data@[v] == tensor.data@[flat4(
                        v / t3 as int / t2 as int / s1 as int,
                        v / t3 as int / t2 as int % s1 as int,
                        bcast_coord(s2, v / t3 as int % t2 as int),
                        bcast_coord(s3, v % t3 as int),
                        s1 as int,
                        s2 as int,
                        s3 as int,
                    )],
            decreases total - u,
        {
            let j = u % t3;
            let q1 = u / t3;
            proof {
                crate::arith::lemma_div_lt(u as int, (s0 * s1 * t2) as int, t3 as int);
            }
            let i = q1 % t2;
            let q2 = q1 / t2;
            proof {
                crate::arith::lemma_div_lt(q1 as int, (s0 * s1) as int, t2 as int);
            }
            let h = q2 % s1;
            let b = q2 / s1;
            proof {
                crate::arith::lemma_div_lt(q2 as int, s0 as int, s1 as int);
            }
            let ii: usize = if s2 == 1 { 0 } else { i };
            let jj: usize = if s3 == 1 { 0 } else { j };
            proof {
                lemma_flat4(b as int, h as int, ii as int, jj as int, s0 as int, s1 as int, s2 as int, s3 as int);
            }
            let idx = ((b * s1 + h) * s2 + ii) * s3 + jj;
            data.push(tensor.data[idx]);
            u = u + 1;
        }
        HostTensor { shape: vec![s0, s1, t2, t3], data, dtype: tensor.dtype }
    } else {
        tensor
    };
    let r = BroadcastMaskBias { tensor: laid, batch_step, head_step };
    proof {
        assert forall|b: int, h: int| 0 <= b < t0 && 0 <= h < t1 implies 0 <= #[trigger] tile_start(r, b, h) && tile_start(r, b, h)
            + t2 * t3 <= r.tensor.data.len() by {
            let b2 = bcast_coord(s0, b);
            let h2 = bcast_coord(s1, h);
            assert(tile_start(r, b, h) == (b2 * s1 + h2) * (t2 * t3)) by (nonlinear_arith)
                requires
                    tile_start(r, b, h) == b * r.batch_step + h * r.head_step,
                    r.batch_step == (if s0 == 1 { 0 } else { s1 * (t2 * t3) }),
                    r.head_step == (if s1 == 1 { 0 } else { t2 * t3 }),
                    b2 == (if s0 == 1 { 0 } else { b }),
                    h2 == (if s1 == 1 { 0 } else { h });
            lemma_offset2(b2, h2, s0 as int, s1 as int);
            assert((b2 * s1 + h2) * (t2 * t3) + t2 * t3 <= s0 * s1 * (t2 * t3)) by (nonlinear_arith)
                requires b2 * s1 + h2 + 1 <= s0 * s1, t2 >= 0, t3 >= 0;
            assert(0 <= (b2 * s1 + h2) * (t2 * t3)) by (nonlinear_arith)
                requires b2 * s1 + h2 >= 0, t2 >= 0, t3 >= 0;
            if s2 == t2 && s3 == t3 {
                assert(s0 * s1 * (t2 * t3) == s0 * s1 * s2 * s3) by (nonlinear_arith)
                    requires s2 == t2, s3 == t3;
            } else {
                assert(s0 * s1 * (t2 * t3) == s0 * s1 * t2 * t3) by (nonlinear_arith);
            }
        }
        assert forall|b: int, h: int, i: int, j: int|
            0 <= b < t0 && 0 <= h < t1 && 0 <= i < t2 && 0 <= j < t3 implies #[trigger] bcast_entry(
            r,
            src,
            s,
            target,
            b,
            h,
            i,
            j,
        ) by {
            let b2 = bcast_coord(s0, b);
            let h2 = bcast_coord(s1, h);
            assert(0 <= b2 < s0 && 0 <= h2 < s1);
            lemma_flat4(b2, h2, i, j, s0 as int, s1 as int, t2 as int, t3 as int);
            let u = flat4(b2, h2, i, j, s1 as int, t2 as int, t3 as int);
            assert(tile_start(r, b, h) + i * t3 + j == u) by (nonlinear_arith)
                requires
                    tile_start(r, b, h) == b * r.batch_step + h * r.head_step,
                    r.batch_step == (if s0 == 1 { 0 } else { s1 * (t2 * t3) }),
                    r.head_step == (if s1 == 1 { 0 } else { t2 * t3 }),
                    b2 == (if s0 == 1 { 0 } else { b }),
                    h2 == (if s1 == 1 { 0 } else { h }),
                    u == b2 * (s1 * t2 * t3) + h2 * (t2 * t3) + i * t3 + j;
            assert(bcast_coord(s0, b2) == b2 && bcast_coord(s1, h2) == h2);
            if s2 == t2 && s3 == t3 {
                assert(bcast_coord(s2, i) == i);
                assert(bcast_coord(s3, j) == j);
            } else {
                assert(r.tensor.data@[u] == src[flat4(b2, h2, bcast_coord(s2, i), bcast_coord(s3, j), s1 as int, s2 as int, s3 as int)]);
            }
        }
    }
    r
}

} // verus!
