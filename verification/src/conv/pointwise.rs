//! Pointwise (1x1x1, unit stride, no padding) convolution: per batch and
//! group, one matrix product of the group's kernel rows with the group's
//! input channels, read directly from the `[batch, channels, spatial]`
//! layout.
use vstd::prelude::*;
use crate::arith::{lemma_div_lt, lemma_div_mod_offset, lemma_mul_nonneg};
use crate::tensor::{DType, HostTensor, shape_numel, lemma_numel_5};
use vstd::slice::slice_subrange;
use super::{ConvOptions, is_pointwise, biased, bias_data, add_bias};

verus! {

/// The shapes and options the pointwise path works on: a 1x1x1 kernel with
/// unit stride and no padding, a valid grouping, and sizes that fit in
/// `usize`.
pub open spec fn pointwise_ok(x_shape: Seq<usize>, w_shape: Seq<usize>, options: ConvOptions<3>) -> bool {
    let spatial = x_shape[2] * x_shape[3] * x_shape[4];
    &&& x_shape.len() == 5
    &&& w_shape.len() == 5
    &&& is_pointwise(w_shape[2] as int, w_shape[3] as int, w_shape[4] as int, options)
    &&& options.groups >= 1
    &&& x_shape[1] == options.groups * w_shape[1]
    &&& w_shape[0] % options.groups == 0
    &&& x_shape[2] * x_shape[3] <= usize::MAX
    &&& spatial <= usize::MAX
    &&& x_shape[0] * w_shape[0] * spatial <= usize::MAX
    &&& x_shape[1] * spatial <= usize::MAX
    &&& x_shape[0] * x_shape[1] <= usize::MAX
}

/// Output element `i` of the pointwise path before the bias is `v`: the
/// entry of its output channel and position in the product `gemm` returned
/// for its group's `[ocpg, cpg]` kernel rows and its batch's `[cpg, spatial]`
/// group input channels.
pub open spec fn pointwise_elem<T, G: Fn(&[T], &[T], usize, usize, usize) -> Vec<T>>(
    gemm: G,
    x: Seq<T>,
    w: Seq<T>,
    c_in: int,
    cpg: int,
    c_out: int,
    ocpg: int,
    spatial: int,
    i: int,
    v: T,
) -> bool {
    let q = i / spatial;
    let s = i % spatial;
    let b = q / c_out;
    let co = q % c_out;
    let grp = co / ocpg;
    exists|lhs: &[T], rhs: &[T], r: Vec<T>|
        #[trigger] call_ensures(gemm, (lhs, rhs, ocpg as usize, cpg as usize, spatial as usize), r)
            && lhs@ == w.subrange(grp * ocpg * cpg, grp * ocpg * cpg + ocpg * cpg)
            && rhs@ == x.subrange((b * c_in + grp * cpg) * spatial, (b * c_in + grp * cpg) * spatial + cpg * spatial)
            && v == r@[(co - grp * ocpg) * spatial + s]
}

/// `out` is what the pointwise path computes: product entries plus the bias
/// of each output channel.
pub open spec fn pointwise_result<T, G: Fn(&[T], &[T], usize, usize, usize) -> Vec<T>, A: Fn(T, T) -> T>(
    gemm: G,
    add: A,
    x: Seq<T>,
    x_shape: Seq<usize>,
    w: Seq<T>,
    w_shape: Seq<usize>,
    bias: Option<Seq<T>>,
    options: ConvOptions<3>,
    out: Seq<T>,
) -> bool {
    let spatial = x_shape[2] * x_shape[3] * x_shape[4];
    let c_out = w_shape[0] as int;
    let ocpg = c_out / (options.groups as int);
    &&& out.len() == x_shape[0] * c_out * spatial
    &&& forall|i: int|
        0 <= i < out.len() ==> #[trigger] pointwise_out_elem(gemm, add, x, w, bias, x_shape[1] as int, w_shape[1] as int, c_out, ocpg, spatial, i, out[i])
}

/// Output element `i` of the pointwise path is `r`.
pub open spec fn pointwise_out_elem<T, G: Fn(&[T], &[T], usize, usize, usize) -> Vec<T>, A: Fn(T, T) -> T>(
    gemm: G,
    add: A,
    x: Seq<T>,
    w: Seq<T>,
    bias: Option<Seq<T>>,
    c_in: int,
    cpg: int,
    c_out: int,
    ocpg: int,
    spatial: int,
    i: int,
    r: T,
) -> bool {
    exists|v: T| #[trigger] pointwise_elem(gemm, x, w, c_in, cpg, c_out, ocpg, spatial, i, v) && biased(add, bias, (i / spatial) % c_out, v, r)
}

/// Optimized 1x1 convolution: no patch matrix; for each batch and group the
/// input channels are already a row-major `[cpg, spatial]` matrix, handed to
/// `gemm_fn` as it is. `gemm_fn` takes `(lhs, rhs, m, k, n)` with `lhs`
/// row-major `[m, k]` and `rhs` row-major `[k, n]` and returns the row-major
/// `[m, n]` product.
pub fn conv3d_1x1_impl<T: Copy, G: Fn(&[T], &[T], usize, usize, usize) -> Vec<T>, A: Fn(T, T) -> T>(
    x: HostTensor<T>,
    weight: HostTensor<T>,
    bias: Option<HostTensor<T>>,
    options: &ConvOptions<3>,
    dtype: DType,
    gemm_fn: &G,
    add_fn: &A,
) -> (r: HostTensor<T>)
    requires
        x.wf(),
        weight.wf(),
        pointwise_ok(x.shape@, weight.shape@, *options),
        match bias {
            Option::Some(b) => b.data@.len() >= weight.shape@[0],
            Option::None => true,
        },
        forall|a: &[T], b: &[T], m: usize, k: usize, n: usize| call_requires(*gemm_fn, (a, b, m, k, n)),
        forall|a: &[T], b: &[T], m: usize, k: usize, n: usize, p: Vec<T>|
            call_ensures(*gemm_fn, (a, b, m, k, n), p) ==> p@.len() == m * n,
        forall|a: T, b: T| call_requires(*add_fn, (a, b)),
    ensures
        r.shape@ == seq![x.shape@[0], weight.shape@[0], x.shape@[2], x.shape@[3], x.shape@[4]],
        r.dtype == dtype,
        r.wf(),
        pointwise_result(*gemm_fn, *add_fn, x.data@, x.shape@, weight.data@, weight.shape@, bias_data(bias), *options, r.data@),
{
    let ghost xs = x.data@;
    let ghost ws = weight.data@;
    let ghost gemm = *gemm_fn;
    let batch_size = x.shape[0];
    let channels_in = x.shape[1];
    let spatial = x.shape[2] * x.shape[3] * x.shape[4];
    let channels_out = weight.shape[0];
    let channels_per_group = weight.shape[1];
    let groups = options.groups;
    let out_channels_per_group = channels_out / groups;
    let m = out_channels_per_group;
    let k = channels_per_group;
    let n = spatial;
    proof {
        lemma_numel_5(x.shape@);
        lemma_numel_5(weight.shape@);
        vstd::arithmetic::div_mod::lemma_fundamental_div_mod(channels_out as int, groups as int);
        assert(channels_out == groups * m);
        assert(xs.len() == batch_size * (channels_in * spatial)) by (nonlinear_arith)
            requires xs.len() == batch_size * channels_in * x.shape@[2] * x.shape@[3] * x.shape@[4], spatial == x.shape@[2] * x.shape@[3] * x.shape@[4];
        assert(ws.len() == groups * (m * k)) by (nonlinear_arith)
            requires ws.len() == channels_out * channels_per_group * 1 * 1 * 1, channels_out == groups * m, k == channels_per_group;
        assert(channels_in * spatial == groups * (k * spatial)) by (nonlinear_arith)
            requires channels_in == groups * k;
        assert(channels_out * spatial == groups * (m * spatial)) by (nonlinear_arith)
            requires channels_out == groups * m;
        lemma_mul_nonneg(m as int, k as int);
        lemma_mul_nonneg(k as int, spatial as int);
        lemma_mul_nonneg(m as int, spatial as int);
        lemma_mul_nonneg(batch_size as int, channels_out as int);
    }
    let x_len = x.data.len();
    let w_len = weight.data.len();
    let mut output: Vec<T> = Vec::new();
    let mut b: usize = 0;
    while b < batch_size
        invariant
            b <= batch_size,
            xs == x.data@,
            ws == weight.data@,
            gemm == *gemm_fn,
            xs.len() == x_len,
            ws.len() == w_len,
            xs.len() == batch_size * (channels_in * spatial),
            ws.len() == groups * (m * k),
            channels_in * spatial == groups * (k * spatial),
            channels_out * spatial == groups * (m * spatial),
            channels_out == groups * m,
            channels_in == groups * k,
            groups >= 1,
            batch_size * channels_out * spatial <= usize::MAX,
            batch_size * channels_in <= usize::MAX,
            x.shape@[1] == channels_in,
            weight.shape@[1] == k,
            weight.shape@[0] == channels_out,
            m == (channels_out as int) / (groups as int),
            n == spatial,
            out_channels_per_group == m,
            output@.len() == b * (channels_out * spatial),
            forall|a: &[T], b: &[T], m: usize, k: usize, n: usize| call_requires(*gemm_fn, (a, b, m, k, n)),
            forall|a: &[T], b: &[T], m: usize, k: usize, n: usize, p: Vec<T>|
                call_ensures(*gemm_fn, (a, b, m, k, n), p) ==> p@.len() == m * n,
            forall|i: int|
                0 <= i < output@.len() ==> #[trigger] pointwise_elem(gemm, xs, ws, channels_in as int, k as int, channels_out as int, m as int, spatial as int, i, output@[i]),
        decreases batch_size - b,
    {
        let mut g: usize = 0;
        while g < groups
            invariant
                b < batch_size,
                g <= groups,
                xs == x.data@,
                ws == weight.data@,
                gemm == *gemm_fn,
                xs.len() == x_len,
                ws.len() == w_len,
                xs.len() == batch_size * (channels_in * spatial),
                ws.len() == groups * (m * k),
                channels_in * spatial == groups * (k * spatial),
                channels_out * spatial == groups * (m * spatial),
                channels_out == groups * m,
                channels_in == groups * k,
                batch_size * channels_out * spatial <= usize::MAX,
                batch_size * channels_in <= usize::MAX,
                m == (channels_out as int) / (groups as int),
                n == spatial,
                out_channels_per_group == m,
                output@.len() == b * (channels_out * spatial) + g * (m * spatial),
                forall|a: &[T], b: &[T], m: usize, k: usize, n: usize| call_requires(*gemm_fn, (a, b, m, k, n)),
                forall|a: &[T], b: &[T], m: usize, k: usize, n: usize, p: Vec<T>|
                    call_ensures(*gemm_fn, (a, b, m, k, n), p) ==> p@.len() == m * n,
                forall|i: int|
                    0 <= i < output@.len() ==> #[trigger] pointwise_elem(gemm, xs, ws, channels_in as int, k as int, channels_out as int, m as int, spatial as int, i, output@[i]),
            decreases groups - g,
        {
            proof {
                assert(b * (channels_in * spatial) + g * (k * spatial) + k * spatial <= batch_size * (channels_in * spatial)) by (nonlinear_arith)
                    requires b + 1 <= batch_size, g + 1 <= groups, channels_in * spatial == groups * (k * spatial), k * spatial >= 0;
                assert(g * (m * k) + m * k <= groups * (m * k)) by (nonlinear_arith)
                    requires g + 1 <= groups, m * k >= 0;
                assert(b * (channels_out * spatial) + g * (m * spatial) + m * spatial <= batch_size * channels_out * spatial) by (nonlinear_arith)
                    requires b + 1 <= batch_size, g + 1 <= groups, channels_out * spatial == groups * (m * spatial), m * spatial >= 0;
                assert(b * channels_in * spatial + g * k * spatial == b * (channels_in * spatial) + g * (k * spatial)) by (nonlinear_arith);
                assert(g * m * k == g * (m * k)) by (nonlinear_arith);
                lemma_mul_nonneg(b as int, channels_in * spatial);
                lemma_mul_nonneg(g as int, k * spatial);
                lemma_mul_nonneg(g as int, m * k);
                lemma_mul_nonneg(b as int, channels_in as int);
                lemma_mul_nonneg(g as int, k as int);
                assert(b * channels_in <= batch_size * channels_in) by (nonlinear_arith)
                    requires b <= batch_size, channels_in >= 0;
                assert(g * k <= channels_in) by (nonlinear_arith)
                    requires g <= groups, channels_in == groups * k, k >= 0;
                assert(g * m <= channels_out) by (nonlinear_arith)
                    requires g <= groups, channels_out == groups * m, m >= 0;
                lemma_mul_nonneg(g as int, m as int);
            }
            let x_offset = b * channels_in * spatial + g * k * spatial;
            let w_offset = g * out_channels_per_group * k;
            let lhs = slice_subrange(weight.data.as_slice(), w_offset, w_offset + m * k);
            let rhs = slice_subrange(x.data.as_slice(), x_offset, x_offset + k * n);
            let mut result = gemm_fn(lhs, rhs, m, k, n);
            let ghost res = result@;
            let ghost result_v = result;
            let ghost before = output@;
            output.append(&mut result);
            proof {
                let base = b * (channels_out * spatial) + g * (m * spatial);
                assert forall|i: int| 0 <= i < output@.len() implies #[trigger] pointwise_elem(gemm, xs, ws, channels_in as int, k as int, channels_out as int, m as int, spatial as int, i, output@[i]) by {
                    if i >= before.len() {
                        let j = i - base;
                        assert(spatial > 0) by (nonlinear_arith)
                            requires 0 <= j < m * spatial, m >= 0, spatial >= 0;
                        assert(m > 0) by (nonlinear_arith)
                            requires 0 <= j < m * spatial, m >= 0, spatial >= 0;
                        lemma_div_lt(j, m as int, spatial as int);
                        let c = j / spatial as int;
                        let s = j % spatial as int;
                        let q = b * channels_out + g * m + c;
                        assert(i == q * spatial + s) by (nonlinear_arith)
                            requires
                                i == base + j,
                                base == b * (channels_out * spatial) + g * (m * spatial),
                                j == c * spatial + s,
                                q == b * channels_out + g * m + c;
                        lemma_div_mod_offset(q, s, spatial as int);
                        assert(g * m + c < channels_out) by (nonlinear_arith)
                            requires c < m, g + 1 <= groups, channels_out == groups * m;
                        lemma_mul_nonneg(g as int, m as int);
                        lemma_div_mod_offset(b as int, g * m + c, channels_out as int);
                        lemma_div_mod_offset(g as int, c, m as int);
                        assert(w_offset == g * m * k);
                        assert(x_offset == (b * channels_in + g * k) * spatial) by (nonlinear_arith)
                            requires x_offset == b * channels_in * spatial + g * k * spatial;
                        assert(call_ensures(gemm, (lhs, rhs, m, k, n), result_v));
                        assert(call_ensures(gemm, (lhs, rhs, (m as int) as usize, (k as int) as usize, (spatial as int) as usize), result_v));
                        assert(output@[i] == res[(g * m + c - g * m) * spatial + s]);
                        let co = q % channels_out as int;
                        let grp = co / (m as int);
                        assert(grp == g);
                        assert(q / channels_out as int == b);
                        assert(lhs@ == ws.subrange(grp * m * k, grp * m * k + m * k));
                        assert(rhs@ == xs.subrange((b * channels_in + grp * k) * spatial, (b * channels_in + grp * k) * spatial + k * spatial));
                        assert(output@[i] == result_v@[(co - grp * m) * spatial + s]);
                    } else {
                        assert(output@[i] == before[i]);
                    }
                }
                assert(output@.len() == b * (channels_out * spatial) + (g + 1) * (m * spatial)) by (nonlinear_arith)
                    requires output@.len() == b * (channels_out * spatial) + g * (m * spatial) + m * spatial;
            }
            g += 1;
        }
        proof {
            assert(b * (channels_out * spatial) + groups * (m * spatial) == (b + 1) * (channels_out * spatial)) by (nonlinear_arith)
                requires channels_out * spatial == groups * (m * spatial);
        }
        b += 1;
    }
    proof {
        assert(output@.len() == batch_size * channels_out * spatial) by (nonlinear_arith)
            requires output@.len() == batch_size * (channels_out * spatial);
    }
    let ghost acc = output@;
    match bias {
        Option::Some(bv) => {
            add_bias(&mut output, bv.data.as_slice(), batch_size, channels_out, spatial, add_fn);
        },
        Option::None => {},
    }
    proof {
        assert forall|i: int| 0 <= i < output@.len() implies #[trigger] pointwise_out_elem(
            gemm,
            *add_fn,
            xs,
            ws,
            bias_data(bias),
            channels_in as int,
            k as int,
            channels_out as int,
            m as int,
            spatial as int,
            i,
            output@[i],
        ) by {
            assert(pointwise_elem(gemm, xs, ws, channels_in as int, k as int, channels_out as int, m as int, spatial as int, i, acc[i]));
        }
    }
    let shape = vec![batch_size, channels_out, x.shape[2], x.shape[3], x.shape[4]];
    let r = HostTensor::new(output, shape, dtype);
    proof {
        lemma_numel_5(r.shape@);
        assert(r.data@.len() == batch_size * channels_out * x.shape@[2] * x.shape@[3] * x.shape@[4]) by (nonlinear_arith)
            requires r.data@.len() == batch_size * channels_out * spatial, spatial == x.shape@[2] * x.shape@[3] * x.shape@[4];
    }
    r
}

} // verus!
