//! Direct path for one-dimensional convolutions without padding or
//! dilation: the convolution is a sum over kernel taps of matrix products,
//! `out += W_k @ X_k`, with `W_k` the tap-`k` column of the kernel and `X_k`
//! the input read at stride offset `k`, so no patch matrix is built.
use vstd::prelude::*;
use crate::arith::{lemma_div_lt, lemma_div_mod_offset, lemma_mul_nonneg, lemma_offset2};
use crate::tensor::{DType, HostTensor, shape_numel, lemma_numel_5};
use crate::fold::{folds_to, add_step, lemma_folds_to_push, lemma_folds_to_empty};
use super::{ConvOptions, conv_out_len, conv_axis_ok, is_direct_shape, calculate_conv_output_size, biased, bias_data, add_bias};

verus! {

/// The `[c_out, c_in]` weights of kernel tap `k` of a `[c_out, c_in, kw]`
/// kernel.
pub open spec fn tap_weights<T>(w: Seq<T>, c_out: int, c_in: int, kw: int, k: int) -> Seq<T> {
    Seq::new((c_out * c_in) as nat, |j: int| w[(j / c_in) * c_in * kw + (j % c_in) * kw + k])
}

/// The `[c_in, out_w]` inputs kernel tap `k` meets in batch `b`: row `c`,
/// column `o` is input position `o * stride + k` of channel `c`.
pub open spec fn tap_inputs<T>(x: Seq<T>, b: int, c_in: int, in_w: int, out_w: int, stride: int, k: int) -> Seq<T> {
    Seq::new((c_in * out_w) as nat, |j: int| x[b * c_in * in_w + (j / out_w) * in_w + (j % out_w) * stride + k])
}

/// `r` is a product `gemm` returned for operands with views `lhs` and `rhs`.
pub open spec fn gemm_called<T, G: Fn(&[T], &[T], usize, usize, usize) -> Vec<T>>(
    gemm: G,
    lhs: Seq<T>,
    rhs: Seq<T>,
    m: int,
    k: int,
    n: int,
    r: Vec<T>,
) -> bool {
    exists|a: &[T], b: &[T]| #[trigger] call_ensures(gemm, (a, b, m as usize, k as usize, n as usize), r) && a@ == lhs && b@ == rhs
}

/// Entry `e` summed over the per-tap products in tap order: the first
/// product's entry, then each later one added with `add`.
pub open spec fn tap_sum<T, A: Fn(T, T) -> T>(add: A, prods: Seq<Vec<T>>, e: int, v: T) -> bool {
    folds_to(add, prods[0]@[e], Seq::new((prods.len() - 1) as nat, |t: int| Option::Some(prods[t + 1]@[e])), v)
}

/// Output element `i = (b * c_out + co) * out_w + o` of the direct path
/// before the bias is `v`: entry `(co, o)` summed over the products `gemm`
/// returned for each tap's weights and batch `b`'s inputs at that tap.
pub open spec fn direct_elem<T, G: Fn(&[T], &[T], usize, usize, usize) -> Vec<T>, A: Fn(T, T) -> T>(
    gemm: G,
    add: A,
    x: Seq<T>,
    w: Seq<T>,
    c_in: int,
    c_out: int,
    in_w: int,
    out_w: int,
    kw: int,
    stride: int,
    i: int,
    v: T,
) -> bool {
    let b = i / (c_out * out_w);
    exists|prods: Seq<Vec<T>>|
        #[trigger] tap_sum(add, prods, i % (c_out * out_w), v) && prods.len() == kw && forall|k: int|
            0 <= k < kw ==> #[trigger] gemm_called(
                gemm,
                tap_weights(w, c_out, c_in, kw, k),
                tap_inputs(x, b, c_in, in_w, out_w, stride, k),
                c_out,
                c_in,
                out_w,
                prods[k],
            )
}

/// Output element `i` of the direct path is `r`.
pub open spec fn direct_out_elem<T, G: Fn(&[T], &[T], usize, usize, usize) -> Vec<T>, A: Fn(T, T) -> T>(
    gemm: G,
    add: A,
    x: Seq<T>,
    w: Seq<T>,
    bias: Option<Seq<T>>,
    c_in: int,
    c_out: int,
    in_w: int,
    out_w: int,
    kw: int,
    stride: int,
    i: int,
    r: T,
) -> bool {
    exists|v: T|
        #[trigger] direct_elem(gemm, add, x, w, c_in, c_out, in_w, out_w, kw, stride, i, v) && biased(add, bias, (i / out_w) % c_out, v, r)
}

/// The shapes and options the direct path works on.
pub open spec fn direct_ok(x_shape: Seq<usize>, w_shape: Seq<usize>, options: ConvOptions<3>) -> bool {
    let out_w = conv_out_len(w_shape[4] as int, options.stride[2] as int, 0, 1, x_shape[4] as int);
    &&& x_shape.len() == 5
    &&& w_shape.len() == 5
    &&& is_direct_shape(x_shape, w_shape, options)
    &&& w_shape[1] == x_shape[1]
    &&& conv_axis_ok(w_shape[4] as int, options.stride[2] as int, 0, 1, x_shape[4] as int)
    &&& x_shape[0] * w_shape[0] * out_w <= usize::MAX
    &&& w_shape[0] * x_shape[1] <= usize::MAX
    &&& w_shape[0] * out_w <= usize::MAX
    &&& x_shape[1] * out_w <= usize::MAX
    &&& x_shape[1] * x_shape[4] <= usize::MAX
    &&& x_shape[0] * x_shape[1] * x_shape[4] <= usize::MAX
}

/// `out` is what the direct path computes.
pub open spec fn direct_result<T, G: Fn(&[T], &[T], usize, usize, usize) -> Vec<T>, A: Fn(T, T) -> T>(
    gemm: G,
    add: A,
    x: Seq<T>,
    x_shape: Seq<usize>,
    w: Seq<T>,
    w_shape: Seq<usize>,
    bias: Option<Seq<T>>,
    options: ConvOptions<3>,
    out: Seq<T>,
) -> bool {
    let out_w = conv_out_len(w_shape[4] as int, options.stride[2] as int, 0, 1, x_shape[4] as int);
    let c_out = w_shape[0] as int;
    &&& out.len() == x_shape[0] * c_out * out_w
    &&& forall|i: int|
        0 <= i < out.len() ==> #[trigger] direct_out_elem(
            gemm,
            add,
            x,
            w,
            bias,
            x_shape[1] as int,
            c_out,
            x_shape[4] as int,
            out_w,
            w_shape[4] as int,
            options.stride[2] as int,
            i,
            out[i],
        )
}

/// The weights of kernel tap `k` as a row-major `[c_out, c_in]` matrix.
fn gather_tap_weights<T: Copy>(w: &Vec<T>, c_out: usize, c_in: usize, kw: usize, k: usize) -> (r: Vec<T>)
    requires
        w@.len() == c_out * c_in * kw,
        k < kw,
        c_out * c_in <= usize::MAX,
    ensures
        r@ == tap_weights(w@, c_out as int, c_in as int, kw as int, k as int),
{
    let total = c_out * c_in;
    let wl = w.len();
    let mut r: Vec<T> = Vec::new();
    let mut j: usize = 0;
    while j < total
        invariant
            w@.len() == wl,
            total == c_out * c_in,
            j <= total,
            k < kw,
            w@.len() == c_out * c_in * kw,
            r@ == tap_weights(w@, c_out as int, c_in as int, kw as int, k as int).take(j as int),
        decreases total - j,
    {
        proof {
            assert(c_in > 0) by (nonlinear_arith)
                requires j < c_out * c_in, c_out >= 0, c_in >= 0;
            lemma_div_lt(j as int, c_out as int, c_in as int);
            lemma_offset2(j as int / c_in as int, j as int % c_in as int, c_out as int, c_in as int);
            lemma_offset2((j as int / c_in as int) * c_in + j as int % c_in as int, k as int, c_out * c_in, kw as int);
            assert(((j as int / c_in as int) * c_in + j as int % c_in as int) * kw + k == (j as int / c_in as int) * c_in * kw + (j as int % c_in as int) * kw + k) by (nonlinear_arith);
            assert(c_out * c_in * kw == (c_out * c_in) * kw);
            lemma_mul_nonneg(j as int / c_in as int, c_in as int);
            assert(((j as int / c_in as int) * c_in + j as int % c_in as int) * kw <= ((j as int / c_in as int) * c_in + j as int % c_in as int) * kw + k);
        }
        let co = j / c_in;
        let c = j % c_in;
        let v = w[(co * c_in + c) * kw + k];
        r.push(v);
        proof {
            assert(tap_weights(w@, c_out as int, c_in as int, kw as int, k as int).take(j as int).push(v)
                =~= tap_weights(w@, c_out as int, c_in as int, kw as int, k as int).take(j + 1));
        }
        j += 1;
    }
    proof {
        assert(tap_weights(w@, c_out as int, c_in as int, kw as int, k as int).take(total as int)
            =~= tap_weights(w@, c_out as int, c_in as int, kw as int, k as int));
    }
    r
}

/// The inputs kernel tap `k` meets in batch `b`, as a row-major
/// `[c_in, out_w]` matrix.
fn gather_tap_inputs<T: Copy>(
    x: &Vec<T>,
    b: usize,
    c_in: usize,
    in_w: usize,
    out_w: usize,
    stride: usize,
    k: usize,
    batch: Ghost<int>,
) -> (r: Vec<T>)
    requires
        b < batch@,
        x@.len() == batch@ * c_in * in_w,
        c_in * out_w <= usize::MAX,
        out_w >= 1 ==> (out_w - 1) * stride + k < in_w,
    ensures
        r@ == tap_inputs(x@, b as int, c_in as int, in_w as int, out_w as int, stride as int, k as int),
{
    let total = c_in * out_w;
    let xl = x.len();
    let mut r: Vec<T> = Vec::new();
    let mut j: usize = 0;
    while j < total
        invariant
            x@.len() == xl,
            total == c_in * out_w,
            j <= total,
            b < batch@,
            x@.len() == batch@ * c_in * in_w,
            out_w >= 1 ==> (out_w - 1) * stride + k < in_w,
            r@ == tap_inputs(x@, b as int, c_in as int, in_w as int, out_w as int, stride as int, k as int).take(j as int),
        decreases total - j,
    {
        proof {
            assert(out_w > 0) by (nonlinear_arith)
                requires j < c_in * out_w, c_in >= 0, out_w >= 0;
            lemma_div_lt(j as int, c_in as int, out_w as int);
            let o = j as int % out_w as int;
            assert(o * stride <= (out_w - 1) * stride) by (nonlinear_arith)
                requires o <= out_w - 1, stride >= 0;
            lemma_mul_nonneg(o, stride as int);
            lemma_offset2(b as int, j as int / out_w as int, batch@, c_in as int);
            lemma_offset2(b * c_in + j as int / out_w as int, o * stride + k, batch@ * c_in, in_w as int);
            assert((b * c_in + j as int / out_w as int) * in_w + (o * stride + k) == b * c_in * in_w + (j as int / out_w as int) * in_w + o * stride + k) by (nonlinear_arith);
            lemma_mul_nonneg(b as int, c_in as int);
            lemma_mul_nonneg(b * c_in, in_w as int);
            lemma_mul_nonneg(j as int / out_w as int, in_w as int);
            assert(b * c_in * in_w <= b * c_in * in_w + (j as int / out_w as int) * in_w);
            assert(b * c_in <= b * c_in * in_w) by (nonlinear_arith)
                requires in_w >= 1, b * c_in >= 0;
        }
        let c = j / out_w;
        let o = j % out_w;
        let v = x[b * c_in * in_w + c * in_w + o * stride + k];
        r.push(v);
        proof {
            assert(tap_inputs(x@, b as int, c_in as int, in_w as int, out_w as int, stride as int, k as int).take(j as int).push(v)
                =~= tap_inputs(x@, b as int, c_in as int, in_w as int, out_w as int, stride as int, k as int).take(j + 1));
        }
        j += 1;
    }
    proof {
        assert(tap_inputs(x@, b as int, c_in as int, in_w as int, out_w as int, stride as int, k as int).take(total as int)
            =~= tap_inputs(x@, b as int, c_in as int, in_w as int, out_w as int, stride as int, k as int));
    }
    r
}

/// The kernel taps of a convolution without padding and dilation read
/// inside the input.
proof fn lemma_taps_inside(kw: int, stride: int, in_w: int, k: int)
    requires
        conv_axis_ok(kw, stride, 0, 1, in_w),
        0 <= k < kw,
    ensures
        conv_out_len(kw, stride, 0, 1, in_w) >= 1,
        (conv_out_len(kw, stride, 0, 1, in_w) - 1) * stride + k < in_w,
{
    let n = in_w - kw;
    vstd::arithmetic::div_mod::lemma_fundamental_div_mod(n, stride);
    vstd::arithmetic::div_mod::lemma_mod_bound(n, stride);
    assert(n / stride >= 0) by (nonlinear_arith)
        requires n >= 0, stride >= 1;
    assert((n / stride) * stride == stride * (n / stride)) by (nonlinear_arith);
}

/// Direct conv3d: the sum over kernel taps of `W_k @ X_k`, one matrix
/// product per batch and tap, with no patch matrix. `gemm_fn` takes
/// `(lhs, rhs, m, k, n)` with `lhs` row-major `[m, k]` and `rhs` row-major
/// `[k, n]` and returns the row-major `[m, n]` product; the first tap's
/// product is the running sum, later ones are added with `add_fn`.
pub fn conv3d_direct_impl<T: Copy, G: Fn(&[T], &[T], usize, usize, usize) -> Vec<T>, A: Fn(T, T) -> T>(
    x: HostTensor<T>,
    weight: HostTensor<T>,
    bias: Option<HostTensor<T>>,
    options: &ConvOptions<3>,
    dtype: DType,
    gemm_fn: &G,
    add_fn: &A,
) -> (r: HostTensor<T>)
    requires
        x.wf(),
        weight.wf(),
        direct_ok(x.shape@, weight.shape@, *options),
        match bias {
            Option::Some(b) => b.data@.len() >= weight.shape@[0],
            Option::None => true,
        },
        forall|a: &[T], b: &[T], m: usize, k: usize, n: usize| call_requires(*gemm_fn, (a, b, m, k, n)),
        forall|a: &[T], b: &[T], m: usize, k: usize, n: usize, p: Vec<T>|
            call_ensures(*gemm_fn, (a, b, m, k, n), p) ==> p@.len() == m * n,
        forall|a: T, b: T| call_requires(*add_fn, (a, b)),
    ensures
        r.shape@ == seq![
            x.shape@[0],
            weight.shape@[0],
            1usize,
            1usize,
            conv_out_len(weight.shape@[4] as int, options.stride[2] as int, 0, 1, x.shape@[4] as int) as usize,
        ],
        r.dtype == dtype,
        r.wf(),
        direct_result(*gemm_fn, *add_fn, x.data@, x.shape@, weight.data@, weight.shape@, bias_data(bias), *options, r.data@),
{
    let ghost xs = x.data@;
    let ghost ws = weight.data@;
    let ghost gemm = *gemm_fn;
    let ghost add = *add_fn;
    let batch_size = x.shape[0];
    let channels_in = x.shape[1];
    let in_w = x.shape[4];
    let channels_out = weight.shape[0];
    let kernel_w = weight.shape[4];
    let stride_w = options.stride[2];
    let out_w = calculate_conv_output_size(kernel_w, stride_w, 0, 1, in_w);
    proof {
        lemma_numel_5(x.shape@);
        lemma_numel_5(weight.shape@);
        assert(xs.len() == batch_size * channels_in * in_w) by (nonlinear_arith)
            requires xs.len() == batch_size * channels_in * x.shape@[2] * x.shape@[3] * in_w, x.shape@[2] == 1, x.shape@[3] == 1;
        assert(ws.len() == channels_out * channels_in * kernel_w) by (nonlinear_arith)
            requires
                ws.len() == channels_out * weight.shape@[1] * weight.shape@[2] * weight.shape@[3] * kernel_w,
                weight.shape@[1] == channels_in,
                weight.shape@[2] == 1,
                weight.shape@[3] == 1;
        lemma_mul_nonneg(channels_out as int, out_w as int);
        lemma_mul_nonneg(batch_size as int, channels_out as int);
        assert(channels_out * out_w <= batch_size * channels_out * out_w || batch_size == 0) by (nonlinear_arith)
            requires batch_size >= 0, channels_out * out_w >= 0;
    }
    let block = channels_out * out_w;
    let mut output: Vec<T> = Vec::new();
    let mut b: usize = 0;
    while b < batch_size
        invariant
            b <= batch_size,
            xs == x.data@,
            ws == weight.data@,
            gemm == *gemm_fn,
            add == *add_fn,
            xs.len() == batch_size * channels_in * in_w,
            ws.len() == channels_out * channels_in * kernel_w,
            block == channels_out * out_w,
            batch_size * channels_out * out_w <= usize::MAX,
            channels_out * channels_in <= usize::MAX,
            channels_in * out_w <= usize::MAX,
            conv_axis_ok(kernel_w as int, stride_w as int, 0, 1, in_w as int),
            out_w == conv_out_len(kernel_w as int, stride_w as int, 0, 1, in_w as int),
            output@.len() == b * block,
            forall|a: &[T], b: &[T], m: usize, k: usize, n: usize| call_requires(*gemm_fn, (a, b, m, k, n)),
            forall|a: &[T], b: &[T], m: usize, k: usize, n: usize, p: Vec<T>|
                call_ensures(*gemm_fn, (a, b, m, k, n), p) ==> p@.len() == m * n,
            forall|a: T, b: T| call_requires(*add_fn, (a, b)),
            forall|i: int|
                0 <= i < output@.len() ==> #[trigger] direct_elem(
                    gemm,
                    add,
                    xs,
                    ws,
                    channels_in as int,
                    channels_out as int,
                    in_w as int,
                    out_w as int,
                    kernel_w as int,
                    stride_w as int,
                    i,
                    output@[i],
                ),
        decreases batch_size - b,
    {
        proof {
            lemma_taps_inside(kernel_w as int, stride_w as int, in_w as int, 0);
        }
        let wk = gather_tap_weights(&weight.data, channels_out, channels_in, kernel_w, 0);
        let xk = gather_tap_inputs(&x.data, b, channels_in, in_w, out_w, stride_w, 0, Ghost(batch_size as int));
        let wk_s = wk.as_slice();
        let xk_s = xk.as_slice();
        let mut acc = gemm_fn(wk_s, xk_s, channels_out, channels_in, out_w);
        let ghost mut prods: Seq<Vec<T>> = seq![acc];
        proof {
            assert(gemm_called(
                gemm,
                tap_weights(ws, channels_out as int, channels_in as int, kernel_w as int, 0),
                tap_inputs(xs, b as int, channels_in as int, in_w as int, out_w as int, stride_w as int, 0),
                channels_out as int,
                channels_in as int,
                out_w as int,
                prods[0],
            )) by {
                assert(call_ensures(gemm, (wk_s, xk_s, channels_out, channels_in, out_w), acc));
                assert(call_ensures(gemm, (wk_s, xk_s, (channels_out as int) as usize, (channels_in as int) as usize, (out_w as int) as usize), acc));
            }
            assert forall|e: int| 0 <= e < acc@.len() implies #[trigger] tap_sum(add, prods, e, acc@[e]) by {
                lemma_folds_to_empty(add, acc@[e]);
                assert(Seq::new((prods.len() - 1) as nat, |t: int| Option::Some(prods[t + 1]@[e])) =~= Seq::<Option<T>>::empty());
            }
        }
        let mut k: usize = 1;
        while k < kernel_w
            invariant
                b < batch_size,
                1 <= k <= kernel_w,
                xs == x.data@,
                ws == weight.data@,
                gemm == *gemm_fn,
                add == *add_fn,
                xs.len() == batch_size * channels_in * in_w,
                ws.len() == channels_out * channels_in * kernel_w,
                block == channels_out * out_w,
                channels_out * channels_in <= usize::MAX,
                channels_in * out_w <= usize::MAX,
                conv_axis_ok(kernel_w as int, stride_w as int, 0, 1, in_w as int),
                out_w == conv_out_len(kernel_w as int, stride_w as int, 0, 1, in_w as int),
                acc@.len() == block,
                prods.len() == k,
                forall|a: &[T], b: &[T], m: usize, k: usize, n: usize| call_requires(*gemm_fn, (a, b, m, k, n)),
                forall|a: &[T], b: &[T], m: usize, k: usize, n: usize, p: Vec<T>|
                    call_ensures(*gemm_fn, (a, b, m, k, n), p) ==> p@.len() == m * n,
                forall|a: T, b: T| call_requires(*add_fn, (a, b)),
                forall|t: int|
                    0 <= t < k ==> #[trigger] gemm_called(
                        gemm,
                        tap_weights(ws, channels_out as int, channels_in as int, kernel_w as int, t),
                        tap_inputs(xs, b as int, channels_in as int, in_w as int, out_w as int, stride_w as int, t),
                        channels_out as int,
                        channels_in as int,
                        out_w as int,
                        prods[t],
                    ),
                forall|e: int| 0 <= e < block ==> #[trigger] tap_sum(add, prods, e, acc@[e]),
            decreases kernel_w - k,
        {
            proof {
                lemma_taps_inside(kernel_w as int, stride_w as int, in_w as int, k as int);
            }
            let wk = gather_tap_weights(&weight.data, channels_out, channels_in, kernel_w, k);
            let xk = gather_tap_inputs(&x.data, b, channels_in, in_w, out_w, stride_w, k, Ghost(batch_size as int));
            let wk_s = wk.as_slice();
            let xk_s = xk.as_slice();
            let p = gemm_fn(wk_s, xk_s, channels_out, channels_in, out_w);
            let ghost before = acc@;
            let mut e: usize = 0;
            while e < block
                invariant
                    block == channels_out * out_w,
                    p@.len() == block,
                    acc@.len() == block,
                    e <= block,
                    add == *add_fn,
                    forall|a: T, b: T| call_requires(*add_fn, (a, b)),
                    forall|j: int| e <= j < block ==> #[trigger] acc@[j] == before[j],
                    forall|j: int| 0 <= j < e ==> call_ensures(add, (before[j], p@[j]), #[trigger] acc@[j]),
                decreases block - e,
            {
                let v = add_fn(acc[e], p[e]);
                acc.set(e, v);
                e += 1;
            }
            proof {
                let old_prods = prods;
                prods = prods.push(p);
                assert(gemm_called(
                    gemm,
                    tap_weights(ws, channels_out as int, channels_in as int, kernel_w as int, k as int),
                    tap_inputs(xs, b as int, channels_in as int, in_w as int, out_w as int, stride_w as int, k as int),
                    channels_out as int,
                    channels_in as int,
                    out_w as int,
                    prods[k as int],
                )) by {
                    assert(call_ensures(gemm, (wk_s, xk_s, channels_out, channels_in, out_w), p));
                    assert(call_ensures(gemm, (wk_s, xk_s, (channels_out as int) as usize, (channels_in as int) as usize, (out_w as int) as usize), prods[k as int]));
                }
                assert forall|t: int|
                    0 <= t < k + 1 implies #[trigger] gemm_called(
                        gemm,
                        tap_weights(ws, channels_out as int, channels_in as int, kernel_w as int, t),
                        tap_inputs(xs, b as int, channels_in as int, in_w as int, out_w as int, stride_w as int, t),
                        channels_out as int,
                        channels_in as int,
                        out_w as int,
                        prods[t],
                    ) by {
                    if t < k {
                        assert(prods[t] == old_prods[t]);
                    }
                }
                assert forall|e2: int| 0 <= e2 < block implies #[trigger] tap_sum(add, prods, e2, acc@[e2]) by {
                    assert(tap_sum(add, old_prods, e2, before[e2]));
                    let s_old = Seq::new((old_prods.len() - 1) as nat, |t: int| Option::Some(old_prods[t + 1]@[e2]));
                    let s_new = Seq::new((prods.len() - 1) as nat, |t: int| Option::Some(prods[t + 1]@[e2]));
                    assert(s_new =~= s_old.push(Option::Some(p@[e2])));
                    assert(prods[0] == old_prods[0]);
                    assert(add_step(add, before[e2], Option::Some(p@[e2]), acc@[e2]));
                    lemma_folds_to_push(add, old_prods[0]@[e2], s_old, before[e2], Option::Some(p@[e2]), acc@[e2]);
                }
            }
            k += 1;
        }
        let ghost base = output@.len();
        let ghost accv = acc@;
        output.append(&mut acc);
        proof {
            assert forall|i: int|
                0 <= i < output@.len() implies #[trigger] direct_elem(
                    gemm,
                    add,
                    xs,
                    ws,
                    channels_in as int,
                    channels_out as int,
                    in_w as int,
                    out_w as int,
                    kernel_w as int,
                    stride_w as int,
                    i,
                    output@[i],
                ) by {
                if i >= base {
                    let e = i - base;
                    lemma_div_mod_offset(b as int, e, block as int);
                    assert(i == b * block + e);
                    assert(tap_sum(add, prods, e, accv[e]));
                }
            }
            assert(output@.len() == (b + 1) * block) by (nonlinear_arith)
                requires output@.len() == b * block + block;
        }
        b += 1;
    }
    let ghost acc_all = output@;
    proof {
        assert(acc_all.len() == batch_size * channels_out * out_w) by (nonlinear_arith)
            requires acc_all.len() == batch_size * block, block == channels_out * out_w;
    }
    match bias {
        Option::Some(bv) => {
            add_bias(&mut output, bv.data.as_slice(), batch_size, channels_out, out_w, add_fn);
        },
        Option::None => {},
    }
    proof {
        assert(acc_all.len() == batch_size * channels_out * out_w) by (nonlinear_arith)
            requires acc_all.len() == batch_size * block, block == channels_out * out_w;
        assert forall|i: int| 0 <= i < output@.len() implies #[trigger] direct_out_elem(
            gemm,
            add,
            xs,
            ws,
            bias_data(bias),
            channels_in as int,
            channels_out as int,
            in_w as int,
            out_w as int,
            kernel_w as int,
            stride_w as int,
            i,
            output@[i],
        ) by {
            assert(direct_elem(gemm, add, xs, ws, channels_in as int, channels_out as int, in_w as int, out_w as int, kernel_w as int, stride_w as int, i, acc_all[i]));
        }
    }
    let shape = vec![batch_size, channels_out, 1, 1, out_w];
    let r = HostTensor::new(output, shape, dtype);
    proof {
        lemma_numel_5(r.shape@);
        assert(r.data@.len() == batch_size * channels_out * 1 * 1 * out_w) by (nonlinear_arith)
            requires r.data@.len() == batch_size * channels_out * out_w;
    }
    r
}

} // verus!
