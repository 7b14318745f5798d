//! Embedding lookup and its gradient: rows of a `[n_embeddings, d_model]`
//! table selected by a `[batch, seq]` tensor of indices.
use vstd::prelude::*;
use crate::arith::{lemma_div_lt, lemma_div_mod_offset, lemma_offset2};
use crate::fold::{scatters_to, lemma_scatters_to_empty, lemma_scatters_to_push};
use crate::tensor::{HostTensor, shape_numel, lemma_numel_3};

verus! {

/// Every index names a row of a table with `rows` rows.
pub open spec fn indices_in_range(indices: Seq<i64>, rows: int) -> bool {
    forall|i: int| 0 <= i < indices.len() ==> 0 <= #[trigger] indices[i] < rows
}

/// Two-dimensional shapes of the table `[n_embeddings, d_model]` and of
/// the indices `[batch, seq]`.
pub open spec fn embedding_shapes_ok(ws: Seq<usize>, is: Seq<usize>) -> bool {
    ws.len() == 2 && is.len() == 2
}

proof fn lemma_numel_2(s: Seq<usize>)
    requires
        s.len() == 2,
    ensures
        shape_numel(s) == s[0] * s[1],
{
    let s1 = s.drop_last();
    let s0 = s1.drop_last();
    assert(s0 =~= Seq::<usize>::empty());
    assert(shape_numel(s0) == 1);
    assert(s1.last() == s[0] && s.last() == s[1]);
    assert(shape_numel(s1) == shape_numel(s0) * (s1.last() as nat));
    assert(shape_numel(s1) == s[0]);
    assert(shape_numel(s) == shape_numel(s1) * (s.last() as nat));
}

/// The rows of `weights` named by `indices`, as a `[batch, seq, d_model]`
/// tensor: element `(i, j)` of the flattened result is element `j` of row
/// `indices[i]`.
pub fn embedding<T: Copy>(weights: HostTensor<T>, indices: HostTensor<i64>) -> (r: HostTensor<T>)
    requires
        weights.wf(),
        indices.wf(),
        embedding_shapes_ok(weights.shape@, indices.shape@),
        indices_in_range(indices.data@, weights.shape@[0] as int),
        indices.shape@[0] * indices.shape@[1] * weights.shape@[1] <= usize::MAX,
    ensures
        r.shape@ == seq![indices.shape@[0], indices.shape@[1], weights.shape@[1]],
        r.dtype == weights.dtype,
        r.wf(),
        forall|i: int, j: int|
            0 <= i < indices.data@.len() && 0 <= j < weights.shape@[1] ==> #[trigger] r.data@[i * weights.shape@[1] + j]
                == weights.data@[indices.data@[i] * weights.shape@[1] + j],
{
    proof {
        lemma_numel_2(weights.shape@);
        lemma_numel_2(indices.shape@);
    }
    let n = indices.data.len();
    let d = weights.shape[1];
    let rows = weights.shape[0];
    let ghost w = weights.data@;
    let ghost idx = indices.data@;
    proof {
        assert(n * d == indices.shape@[0] * indices.shape@[1] * weights.shape@[1]);
    }
    let mut out: Vec<T> = Vec::new();
    let mut i: usize = 0;
    while i < n
        invariant
            i <= n,
            n == idx.len(),
            idx == indices.data@,
            w == weights.data@,
            w.len() == rows * d,
            n * d <= usize::MAX,
            indices_in_range(idx, rows as int),
            out@.len() == i * d,
            forall|a: int, j: int| 0 <= a < i && 0 <= j < d ==> #[trigger] out@[a * d + j] == w[idx[a] * d + j],
        decreases n - i,
    {
        let row = indices.data[i];
        proof {
            assert(0 <= idx[i as int] < rows);
        }
        let r = row as usize;
        let _wlen = weights.data.len();
        let mut j: usize = 0;
        let ghost before = out@;
        while j < d
            invariant
                i < n,
                j <= d,
                r < rows,
                r == idx[i as int],
                w == weights.data@,
                w.len() == rows * d,
                w.len() <= usize::MAX,
                before.len() == i * d,
                out@.len() == i * d + j,
                forall|t: int| 0 <= t < i * d ==> #[trigger] out@[t] == before[t],
                forall|t: int| 0 <= t < j ==> #[trigger] out@[i * d + t] == w[r * d + t],
            decreases d - j,
        {
            proof {
                lemma_offset2(r as int, j as int, rows as int, d as int);
            }
            out.push(weights.data[r * d + j]);
            j = j + 1;
        }
        proof {
            assert forall|a: int, jj: int| 0 <= a < i + 1 && 0 <= jj < d implies #[trigger] out@[a * d + jj] == w[idx[a] * d + jj] by {
                lemma_offset2(a, jj, (i + 1) as int, d as int);
                if a < i {
                    lemma_offset2(a, jj, i as int, d as int);
                    assert(out@[a * d + jj] == before[a * d + jj]);
                }
            }
            assert(out@.len() == (i + 1) * d) by (nonlinear_arith)
                requires out@.len() == i * d + d;
        }
        i = i + 1;
    }
    let r = HostTensor { shape: vec![indices.shape[0], indices.shape[1], d], data: out, dtype: weights.dtype };
    proof {
        lemma_numel_3(r.shape@);
    }
    r
}

/// The gradient events of an embedding: element `t = i * d + j` of the
/// output gradient is added to element `j` of row `indices[i]`.
pub open spec fn embedding_grad_events<T>(indices: Seq<i64>, grad: Seq<T>, d: int) -> Seq<Option<(int, T)>> {
    Seq::new(grad.len(), |t: int| Option::Some((indices[t / d] * d + t % d, grad[t])))
}

/// The gradient of an embedding with respect to its table: a zero
/// `[n_embeddings, d_model]` table to which every row of `output_grad`
/// (shape `[batch, seq, d_model]`) is added, with `add_fn` and in order,
/// at the row its index names.
pub fn embedding_backward<T: Copy, A: Fn(T, T) -> T>(
    weights: HostTensor<T>,
    output_grad: HostTensor<T>,
    indices: HostTensor<i64>,
    zero: T,
    add_fn: &A,
) -> (r: HostTensor<T>)
    requires
        weights.wf(),
        indices.wf(),
        embedding_shapes_ok(weights.shape@, indices.shape@),
        indices_in_range(indices.data@, weights.shape@[0] as int),
        output_grad.data@.len() == indices.data@.len() * weights.shape@[1],
        forall|a: T, b: T| call_requires(*add_fn, (a, b)),
    ensures
        r.shape@ == weights.shape@,
        r.dtype == output_grad.dtype,
        r.wf(),
        scatters_to(
            *add_fn,
            Seq::new(r.data@.len(), |t: int| zero),
            embedding_grad_events(indices.data@, output_grad.data@, weights.shape@[1] as int),
            r.data@,
        ),
{
    proof {
        lemma_numel_2(weights.shape@);
    }
    let rows = weights.shape[0];
    let d = weights.shape[1];
    let total = weights.data.len();
    let mut grad: Vec<T> = Vec::new();
    let mut t: usize = 0;
    while t < total
        invariant
            t <= total,
            grad@ == Seq::new(t as nat, |u: int| zero),
        decreases total - t,
    {
        grad.push(zero);
        t = t + 1;
        proof {
            assert(grad@ =~= Seq::new(t as nat, |u: int| zero));
        }
    }
    let ghost init = grad@;
    let ghost idx = indices.data@;
    let ghost g = output_grad.data@;
    let ghost events = embedding_grad_events(idx, g, d as int);
    proof {
        lemma_scatters_to_empty(*add_fn, init);
        assert(events.take(0) =~= Seq::<Option<(int, T)>>::empty());
    }
    let _glen = output_grad.data.len();
    let mut t: usize = 0;
    while t < output_grad.data.len()
        invariant
            t <= g.len(),
            g == output_grad.data@,
            idx == indices.data@,
            g.len() == idx.len() * d,
            init.len() == total,
            total == rows * d,
            grad@.len() == total,
            indices_in_range(idx, rows as int),
            events == embedding_grad_events(idx, g, d as int),
            forall|a: T, b: T| call_requires(*add_fn, (a, b)),
            scatters_to(*add_fn, init, events.take(t as int), grad@),
        decreases g.len() - t,
    {
        proof {
            assert(d > 0) by (nonlinear_arith)
                requires t < idx.len() * d, d >= 0, idx.len() >= 0;
            lemma_div_lt(t as int, idx.len() as int, d as int);
            assert(0 <= idx[(t / d) as int] < rows);
            lemma_offset2(idx[(t / d) as int] as int, (t % d) as int, rows as int, d as int);
        }
        let i = t / d;
        let j = t % d;
        let row = indices.data[i] as usize;
        let pos = row * d + j;
        let v = add_fn(grad[pos], output_grad.data[t]);
        let ghost before = grad@;
        grad.set(pos, v);
        proof {
            let e = Option::Some((pos as int, g[t as int]));
            assert(events[t as int] == e);
            assert(grad@ == before.update(pos as int, grad@[pos as int]));
            lemma_scatters_to_push(*add_fn, init, events.take(t as int), before, e, grad@);
            assert(events.take(t as int).push(e) =~= events.take(t + 1));
        }
        t = t + 1;
    }
    proof {
        assert(events.take(g.len() as int) =~= events);
        assert(init =~= Seq::new(grad@.len(), |u: int| zero));
    }
    HostTensor { shape: weights.shape, data: grad, dtype: output_grad.dtype }
}

} // verus!
