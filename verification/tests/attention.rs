use half::f16;
use rudnn::attention::run::{attention, attention_flash, attention_naive, cast_from_f32, cast_to_f32};
use rudnn::attention::{broadcast_attn_mask_bias, NAIVE_SCORE_BUDGET, TILE_KV};
use rudnn::tensor::{DType, HostTensor};

#[derive(Clone, Copy)]
struct Opts {
    scale: Option<f32>,
    softcap: Option<f32>,
    is_causal: bool,
}

const DEFAULT: Opts = Opts { scale: None, softcap: None, is_causal: false };

#[derive(Clone, Copy, PartialEq)]
enum Strategy {
    Auto,
    Naive,
    Flash,
}

/// `lhs` `[m, k]` times the transpose of `rhs` `[n, k]`.
fn gemm_nt(a: &[f32], b: &[f32], m: usize, k: usize, n: usize) -> Vec<f32> {
    let mut c = vec![0.0f32; m * n];
    for i in 0..m {
        for j in 0..n {
            let mut acc = 0.0f32;
            for r in 0..k {
                acc += a[i * k + r] * b[j * k + r];
            }
            c[i * n + j] = acc;
        }
    }
    c
}

/// `lhs` `[m, k]` times `rhs` `[k, n]`.
fn gemm_nn(a: &[f32], b: &[f32], m: usize, k: usize, n: usize) -> Vec<f32> {
    let mut c = vec![0.0f32; m * n];
    for i in 0..m {
        for j in 0..n {
            let mut acc = 0.0f32;
            for r in 0..k {
                acc += a[i * k + r] * b[r * n + j];
            }
            c[i * n + j] = acc;
        }
    }
    c
}

fn gemm_nt64(a: &[f64], b: &[f64], m: usize, k: usize, n: usize) -> Vec<f64> {
    let mut c = vec![0.0f64; m * n];
    for i in 0..m {
        for j in 0..n {
            let mut acc = 0.0f64;
            for r in 0..k {
                acc += a[i * k + r] * b[j * k + r];
            }
            c[i * n + j] = acc;
        }
    }
    c
}

fn gemm_nn64(a: &[f64], b: &[f64], m: usize, k: usize, n: usize) -> Vec<f64> {
    let mut c = vec![0.0f64; m * n];
    for i in 0..m {
        for j in 0..n {
            let mut acc = 0.0f64;
            for r in 0..k {
                acc += a[i * k + r] * b[r * n + j];
            }
            c[i * n + j] = acc;
        }
    }
    c
}

fn t32(data: Vec<f32>, shape: &[usize]) -> HostTensor<f32> {
    HostTensor::new(data, shape.to_vec(), DType::F32)
}

fn tmask(data: Vec<u8>, shape: &[usize]) -> HostTensor<u8> {
    HostTensor::new(data, shape.to_vec(), DType::U8)
}

fn run(
    strategy: Strategy,
    q: HostTensor<f32>,
    k: HostTensor<f32>,
    v: HostTensor<f32>,
    mask: Option<HostTensor<u8>>,
    bias: Option<HostTensor<f32>>,
    opts: Opts,
) -> HostTensor<f32> {
    let head_dim = q.shape[3];
    let scale = opts.scale.unwrap_or(1.0 / (head_dim as f32).sqrt());
    let mul = |a: f32, b: f32| a * b;
    let softcap = |v: f32, cap: f32| cap * (v / cap).tanh();
    let add = |a: f32, b: f32| a + b;
    let gt = |a: f32, b: f32| a > b;
    let eq = |a: f32, b: f32| a == b;
    let exp_shift = |a: f32, b: f32| (a - b).exp();
    let recip = |s: f32| 1.0f32 / s;
    let neg = f32::NEG_INFINITY;
    match strategy {
        Strategy::Auto => attention(q, k, v, mask, bias, scale, opts.softcap, opts.is_causal, neg, 0.0, &mul, &softcap, &add, &gt, &eq, &exp_shift, &recip, &gemm_nt, &gemm_nn),
        Strategy::Naive => attention_naive(q, k, v, mask, bias, scale, opts.softcap, opts.is_causal, neg, 0.0, &mul, &softcap, &add, &gt, &eq, &exp_shift, &recip, &gemm_nt, &gemm_nn),
        Strategy::Flash => attention_flash(q, k, v, mask, bias, scale, opts.softcap, opts.is_causal, neg, 0.0, &mul, &softcap, &add, &gt, &eq, &exp_shift, &recip, &gemm_nt, &gemm_nn),
    }
}

fn make(shape: &[usize], g: &dyn Fn(usize) -> f32) -> HostTensor<f32> {
    let len: usize = shape.iter().product();
    t32((0..len).map(g).collect(), shape)
}

fn assert_outputs_close(a: &[f32], b: &[f32], tol: f32, label: &str) {
    assert_eq!(a.len(), b.len(), "{label}: length mismatch");
    for (i, (&x, &y)) in a.iter().zip(b).enumerate() {
        assert!((x - y).abs() < tol * x.abs().max(y.abs()).max(1.0), "{label} mismatch at {i}: {x} vs {y}");
    }
}

#[test]
fn test_f64_flash_attention() {
    let q = HostTensor::new(vec![1.0f64, 0.0, 0.0, 1.0], vec![1, 1, 2, 2], DType::F64);
    let k = HostTensor::new(vec![1.0f64, 0.0, 0.0, 1.0], vec![1, 1, 2, 2], DType::F64);
    let v = HostTensor::new(vec![10.0f64, 20.0], vec![1, 1, 2, 1], DType::F64);
    let r = attention(
        q,
        k,
        v,
        None,
        None,
        1.0 / 2.0f64.sqrt(),
        None,
        false,
        f64::NEG_INFINITY,
        0.0f64,
        &|a: f64, b: f64| a * b,
        &|v: f64, c: f64| c * (v / c).tanh(),
        &|a: f64, b: f64| a + b,
        &|a: f64, b: f64| a > b,
        &|a: f64, b: f64| a == b,
        &|a: f64, b: f64| (a - b).exp(),
        &|s: f64| 1.0 / s,
        &gemm_nt64,
        &gemm_nn64,
    );
    assert_eq!(r.shape, vec![1, 1, 2, 1]);
    assert_eq!(r.dtype, DType::F64);
    assert!((r.data[0] - 13.30).abs() < 0.1, "got {}", r.data[0]);
    assert!((r.data[1] - 16.70).abs() < 0.1, "got {}", r.data[1]);
}

#[test]
fn test_f16_attention() {
    let qv: Vec<f16> = [1.0f32, 0.0, 0.0, 1.0].iter().map(|&v| f16::from_f32(v)).collect();
    let vv: Vec<f16> = [10.0f32, 20.0].iter().map(|&v| f16::from_f32(v)).collect();
    let q = HostTensor::new(qv.clone(), vec![1, 1, 2, 2], DType::F16);
    let k = HostTensor::new(qv, vec![1, 1, 2, 2], DType::F16);
    let v = HostTensor::new(vv, vec![1, 1, 2, 1], DType::F16);
    for strategy in [Strategy::Flash, Strategy::Naive] {
        let widen = |x: f16| x.to_f32();
        let r = run(
            strategy,
            cast_to_f32(HostTensor::new(q.data.clone(), q.shape.clone(), q.dtype), &widen),
            cast_to_f32(HostTensor::new(k.data.clone(), k.shape.clone(), k.dtype), &widen),
            cast_to_f32(HostTensor::new(v.data.clone(), v.shape.clone(), v.dtype), &widen),
            None,
            None,
            DEFAULT,
        );
        let r = cast_from_f32(r, &|x: f32| f16::from_f32(x), DType::F16);
        assert_eq!(r.dtype, DType::F16);
        assert!((r.data[0].to_f32() - 13.30).abs() < 0.2, "row0: got {}", r.data[0]);
        assert!((r.data[1].to_f32() - 16.70).abs() < 0.2, "row1: got {}", r.data[1]);
    }
}

#[test]
fn test_naive_matches_flash() {
    fn mk_f32(shape: &[usize]) -> HostTensor<f32> {
        make(shape, &|i| ((i % 997) as f32 / 997.0) - 0.5)
    }
    fn mk_mask(shape: &[usize]) -> HostTensor<u8> {
        let len: usize = shape.iter().product();
        tmask((0..len).map(|i| (i.wrapping_mul(997) % 100 < 30) as u8).collect(), shape)
    }
    #[allow(clippy::too_many_arguments)]
    fn run_both(b: usize, h: usize, sq: usize, skv: usize, d: usize, vd: usize, with_mask: bool, with_bias: bool, opts: Opts, label: &str) {
        let q = mk_f32(&[b, h, sq, d]);
        let k = mk_f32(&[b, h, skv, d]);
        let v = mk_f32(&[b, h, skv, vd]);
        let st = [b, h, sq, skv];
        let mask = if with_mask { Some(mk_mask(&st)) } else { None };
        let bias = if with_bias { Some(mk_f32(&st)) } else { None };
        let clone_t = |t: &HostTensor<f32>| t32(t.data.clone(), &t.shape);
        let clone_m = |t: &Option<HostTensor<u8>>| t.as_ref().map(|m| tmask(m.data.clone(), &m.shape));
        let clone_b = |t: &Option<HostTensor<f32>>| t.as_ref().map(|m| t32(m.data.clone(), &m.shape));
        let flash = run(Strategy::Flash, clone_t(&q), clone_t(&k), clone_t(&v), clone_m(&mask), clone_b(&bias), opts);
        let naive = run(Strategy::Naive, q, k, v, mask, bias, opts);
        assert_outputs_close(&flash.data, &naive.data, 1e-4, label);
    }
    let causal = Opts { is_causal: true, ..DEFAULT };
    let all_opts = Opts { scale: Some(0.05), softcap: Some(30.0), is_causal: true };
    run_both(1, 1, 4, 4, 8, 8, false, false, DEFAULT, "basic_4x4");
    run_both(2, 4, 8, 8, 16, 16, false, false, DEFAULT, "multi_head_batch");
    run_both(1, 2, 4, 32, 16, 16, false, false, DEFAULT, "cross_attn");
    run_both(1, 1, 4, 128, 16, 16, false, false, DEFAULT, "multi_tile");
    run_both(1, 2, 16, 16, 32, 32, false, false, causal, "causal");
    run_both(2, 2, 16, 16, 32, 32, false, false, all_opts, "all_options");
    run_both(1, 1, 32, 256, 64, 64, false, false, causal, "large_causal");
    run_both(1, 2, 8, 8, 16, 16, true, false, DEFAULT, "with_mask");
    run_both(1, 2, 8, 8, 16, 16, false, true, DEFAULT, "with_bias");
    run_both(2, 2, 16, 128, 32, 32, true, true, causal, "mask_bias_causal");
    run_both(1, 1, 4, 100, 16, 16, false, false, DEFAULT, "partial_tile");
    run_both(1, 2, 8, 100, 16, 16, false, false, causal, "partial_tile_causal");
}

fn bcast_inputs() -> (HostTensor<f32>, HostTensor<f32>, HostTensor<f32>) {
    let (b, h, sq, skv, d) = (2, 2, 3, 5, 4);
    let q = make(&[b, h, sq, d], &|i| (i as f32 * 0.1).sin());
    let k = make(&[b, h, skv, d], &|i| (i as f32 * 0.1 + 1.0).sin());
    let v = make(&[b, h, skv, d], &|i| (i as f32 * 0.1 + 2.0).sin());
    (q, k, v)
}

#[test]
fn test_flash_bias_broadcast_across_batch_and_heads() {
    let (q, k, v) = bcast_inputs();
    let tile: Vec<f32> = (0..15).map(|i| (i as f32 * 0.4).sin()).collect();
    let full: Vec<f32> = tile.iter().cloned().cycle().take(2 * 2 * 15).collect();
    let out_b = run(Strategy::Flash, t32(q.data.clone(), &q.shape), t32(k.data.clone(), &k.shape), t32(v.data.clone(), &v.shape), None, Some(t32(tile, &[1, 1, 3, 5])), DEFAULT);
    let out_f = run(Strategy::Flash, q, k, v, None, Some(t32(full, &[2, 2, 3, 5])), DEFAULT);
    assert_outputs_close(&out_b.data, &out_f.data, 1e-5, "flash bias[1,1,sq,skv]");
}

#[test]
fn test_flash_bool_mask_broadcast_across_batch_and_heads() {
    let (q, k, v) = bcast_inputs();
    let tile: Vec<u8> = (0..15).map(|i| if i % 5 >= 3 { 1u8 } else { 0u8 }).collect();
    let full: Vec<u8> = tile.iter().copied().cycle().take(2 * 2 * 15).collect();
    let out_b = run(Strategy::Flash, t32(q.data.clone(), &q.shape), t32(k.data.clone(), &k.shape), t32(v.data.clone(), &v.shape), Some(tmask(tile, &[1, 1, 3, 5])), None, DEFAULT);
    let out_f = run(Strategy::Flash, q, k, v, Some(tmask(full, &[2, 2, 3, 5])), None, DEFAULT);
    assert_outputs_close(&out_b.data, &out_f.data, 1e-5, "flash bool mask[1,1,sq,skv]");
}

#[test]
fn broadcast_over_query_axis_expands() {
    // A [1, 1, 1, seq_kv] mask is expanded over the query rows.
    let (q, k, v) = bcast_inputs();
    let row: Vec<u8> = vec![0, 1, 0, 1, 0];
    let full: Vec<u8> = row.iter().copied().cycle().take(2 * 2 * 15).collect();
    let out_b = run(Strategy::Naive, t32(q.data.clone(), &q.shape), t32(k.data.clone(), &k.shape), t32(v.data.clone(), &v.shape), Some(tmask(row, &[1, 1, 1, 5])), None, DEFAULT);
    let out_f = run(Strategy::Naive, q, k, v, Some(tmask(full, &[2, 2, 3, 5])), None, DEFAULT);
    assert_outputs_close(&out_b.data, &out_f.data, 1e-6, "mask[1,1,1,skv]");
}

#[test]
fn broadcast_layout_steps() {
    let t = tmask(vec![0u8; 15], &[1, 1, 3, 5]);
    let r = broadcast_attn_mask_bias(t, [2, 2, 3, 5]);
    assert_eq!((r.batch_step, r.head_step), (0, 0));
    let t = tmask(vec![0u8; 30], &[2, 1, 3, 5]);
    let r = broadcast_attn_mask_bias(t, [2, 2, 3, 5]);
    assert_eq!((r.batch_step, r.head_step), (15, 0));
    // A broadcast query axis expands the one distinct tile once.
    let t = tmask((0..5).collect(), &[1, 1, 1, 5]);
    let r = broadcast_attn_mask_bias(t, [2, 2, 3, 5]);
    assert_eq!((r.batch_step, r.head_step), (0, 0));
    assert_eq!(r.tensor.data.len(), 15);
    assert_eq!(&r.tensor.data[5..10], &[0, 1, 2, 3, 4]);
    let t = tmask((0..10).collect(), &[1, 2, 1, 5]);
    let r = broadcast_attn_mask_bias(t, [2, 2, 3, 5]);
    assert_eq!((r.batch_step, r.head_step), (0, 15));
    assert_eq!(&r.tensor.data[15..20], &[5, 6, 7, 8, 9]);
}

#[test]
fn test_multi_tile_seq_kv() {
    let (sq, skv, d, vd) = (2, 128, 4, 2);
    let mut qd = vec![0.0f32; sq * d];
    qd[0] = 1.0;
    qd[d + 1] = 1.0;
    let kd = vec![0.1f32; skv * d];
    let mut vdat = vec![0.0f32; skv * vd];
    for i in 0..skv {
        vdat[i * vd] = i as f32;
        vdat[i * vd + 1] = (skv - 1 - i) as f32;
    }
    for s in [Strategy::Auto, Strategy::Flash] {
        let r = run(s, t32(qd.clone(), &[1, 1, sq, d]), t32(kd.clone(), &[1, 1, skv, d]), t32(vdat.clone(), &[1, 1, skv, vd]), None, None, DEFAULT);
        assert_eq!(r.data.len(), sq * vd);
        assert!((r.data[0] - 63.5).abs() < 0.1, "got {}", r.data[0]);
        assert!((r.data[1] - 63.5).abs() < 0.1, "got {}", r.data[1]);
    }
}

#[test]
fn test_multi_tile_causal() {
    let (sq, skv, d) = (4, 128, 2);
    let mut qd = vec![0.0f32; sq * d];
    for i in 0..sq {
        qd[i * d] = 1.0;
    }
    let mut kd = vec![0.0f32; skv * d];
    for i in 0..skv {
        kd[i * d] = 1.0;
    }
    let vdat: Vec<f32> = (0..skv).map(|i| i as f32).collect();
    let causal = Opts { is_causal: true, ..DEFAULT };
    for s in [Strategy::Auto, Strategy::Flash] {
        let r = run(s, t32(qd.clone(), &[1, 1, sq, d]), t32(kd.clone(), &[1, 1, skv, d]), t32(vdat.clone(), &[1, 1, skv, 1]), None, None, causal);
        assert_eq!(r.data.len(), sq);
        for (i, want) in [62.0f32, 62.5, 63.0, 63.5].iter().enumerate() {
            assert!((r.data[i] - want).abs() < 0.1, "q{}: got {}", i, r.data[i]);
        }
    }
}

#[test]
fn test_tile_boundary_mask() {
    let skv = 128;
    let mask: Vec<u8> = (0..skv).map(|i| (i < 64) as u8).collect();
    let vdat: Vec<f32> = (0..skv).map(|i| i as f32).collect();
    for s in [Strategy::Auto, Strategy::Flash] {
        let r = run(
            s,
            t32(vec![1.0, 0.0], &[1, 1, 1, 2]),
            t32([1.0f32, 0.0].repeat(skv), &[1, 1, skv, 2]),
            t32(vdat.clone(), &[1, 1, skv, 1]),
            Some(tmask(mask.clone(), &[1, 1, 1, skv])),
            None,
            DEFAULT,
        );
        assert!((r.data[0] - 95.5).abs() < 0.1, "got {}", r.data[0]);
    }
}

#[test]
fn test_non_uniform_scores_across_tiles() {
    let skv = 128;
    let kd: Vec<f32> = (0..skv).map(|i| if i < 64 { 0.1 } else { 5.0 }).collect();
    let vdat: Vec<f32> = (0..skv).map(|i| if i < 64 { 0.0 } else { 1.0 }).collect();
    for s in [Strategy::Auto, Strategy::Flash] {
        let r = run(s, t32(vec![1.0], &[1, 1, 1, 1]), t32(kd.clone(), &[1, 1, skv, 1]), t32(vdat.clone(), &[1, 1, skv, 1]), None, None, DEFAULT);
        assert!(r.data[0] > 0.99, "got {}", r.data[0]);
    }
}

#[test]
fn test_partial_last_tile() {
    let (sq, skv) = (2, 100);
    let vdat: Vec<f32> = (0..skv).map(|i| i as f32).collect();
    for s in [Strategy::Auto, Strategy::Flash] {
        let r = run(s, t32([0.1f32, 0.1].repeat(sq), &[1, 1, sq, 2]), t32([0.1f32, 0.1].repeat(skv), &[1, 1, skv, 2]), t32(vdat.clone(), &[1, 1, skv, 1]), None, None, DEFAULT);
        assert_eq!(r.data.len(), sq);
        assert!((r.data[0] - 49.5).abs() < 0.1, "got {}", r.data[0]);
        assert!((r.data[1] - 49.5).abs() < 0.1, "got {}", r.data[1]);
    }
}

#[test]
fn fully_masked_rows_are_zero() {
    let mask = vec![1u8, 1, 0, 1];
    for s in [Strategy::Naive, Strategy::Flash] {
        let r = run(
            s,
            t32(vec![1.0, 0.5, 0.2, 0.3], &[1, 1, 2, 2]),
            t32(vec![0.3, 0.1, 0.9, 0.4], &[1, 1, 2, 2]),
            t32(vec![7.0, 11.0], &[1, 1, 2, 1]),
            Some(tmask(mask.clone(), &[1, 1, 2, 2])),
            None,
            DEFAULT,
        );
        assert_eq!(r.data[0], 0.0);
        assert!((r.data[1] - 7.0).abs() < 1e-6);
    }
}

#[test]
fn empty_query_gives_empty_output() {
    let r = run(Strategy::Auto, t32(vec![], &[2, 3, 0, 4]), t32(vec![0.0; 2 * 3 * 5 * 4], &[2, 3, 5, 4]), t32(vec![0.0; 2 * 3 * 5 * 6], &[2, 3, 5, 6]), None, None, DEFAULT);
    assert_eq!(r.shape, vec![2, 3, 0, 6]);
    assert!(r.data.is_empty());
}

#[test]
fn strategy_budget_and_tile_constants() {
    assert_eq!(TILE_KV, 64);
    assert_eq!(NAIVE_SCORE_BUDGET, 262144);
}

/// The dense `[b, h, sq, skv]` expansion of a broadcastable tensor.
fn expanded<E: Copy>(t: &HostTensor<E>, target: [usize; 4]) -> HostTensor<E> {
    let s = &t.shape;
    let mut data = Vec::with_capacity(target.iter().product());
    for b in 0..target[0] {
        for h in 0..target[1] {
            for i in 0..target[2] {
                for j in 0..target[3] {
                    let at = |d: usize, x: usize| if s[d] == 1 { 0 } else { x };
                    data.push(t.data[((at(0, b) * s[1] + at(1, h)) * s[2] + at(2, i)) * s[3] + at(3, j)]);
                }
            }
        }
    }
    HostTensor::new(data, target.to_vec(), t.dtype)
}

/// Every combination of keeping a target extent or broadcasting it from 1.
fn broadcast_shapes(target: [usize; 4]) -> Vec<[usize; 4]> {
    (0..16).map(|bits| core::array::from_fn(|d| if bits & (1 << d) == 0 { target[d] } else { 1 })).collect()
}

#[test]
fn broadcast_preparation_copies_each_distinct_tile_once() {
    let target = [2, 3, 4, 5];
    let tile_len = target[2] * target[3];
    for src in broadcast_shapes(target) {
        let len: usize = src.iter().product();
        let source = t32((0..len).map(|i| i as f32 - 7.0).collect(), &src);
        let full = expanded(&source, target);
        let prepared = broadcast_attn_mask_bias(source, target);
        let data = &prepared.tensor.data;
        assert_eq!(data.len(), src[0] * src[1] * tile_len, "shape {src:?}");
        for b in 0..target[0] {
            for h in 0..target[1] {
                let compact_offset = b * prepared.batch_step + h * prepared.head_step;
                let full_offset = (b * target[1] + h) * tile_len;
                assert_eq!(
                    &data[compact_offset..compact_offset + tile_len],
                    &full.data[full_offset..full_offset + tile_len],
                    "shape {src:?}, batch {b}, head {h}",
                );
            }
        }
    }
}

#[test]
fn trailing_broadcast_empty_targets_do_not_allocate_tiles() {
    for target in [[0, 3, 4, 5], [2, 0, 4, 5], [2, 3, 0, 5], [2, 3, 4, 0]] {
        let prepared = broadcast_attn_mask_bias(t32(vec![1.0], &[1, 1, 1, 1]), target);
        assert!(prepared.tensor.data.is_empty(), "target {target:?}");
    }
}

#[test]
fn trailing_broadcast_matches_dense_inputs_for_naive_and_flash() {
    let target = [2, 2, 3, TILE_KV + 3];
    let input = |shape: [usize; 4]| make(&shape, &|i| (i % 29) as f32 / 29.0 - 0.5);
    let query = input([target[0], target[1], target[2], 4]);
    let key = input([target[0], target[1], target[3], 4]);
    let value = input([target[0], target[1], target[3], 3]);
    let options = Opts { scale: Some(0.75), softcap: Some(2.0), is_causal: true };
    for src in broadcast_shapes(target) {
        let len: usize = src.iter().product();
        let mask = tmask((0..len).map(|i| u8::from(i % 7 == 0)).collect(), &src);
        let bias = t32((0..len).map(|i| (i % 13) as f32 / 17.0).collect(), &src);
        let full_mask = expanded(&mask, target);
        let full_bias = expanded(&bias, target);
        for strategy in [Strategy::Naive, Strategy::Flash] {
            let copy = |t: &HostTensor<f32>| t32(t.data.clone(), &t.shape);
            let compact = run(strategy, copy(&query), copy(&key), copy(&value), Some(tmask(mask.data.clone(), &src)), Some(copy(&bias)), options);
            let full = run(strategy, copy(&query), copy(&key), copy(&value), Some(tmask(full_mask.data.clone(), &target)), Some(copy(&full_bias)), options);
            // Same strategy, same values and operation order: require exact bits.
            let compact_bits: Vec<u32> = compact.data.iter().map(|x| x.to_bits()).collect();
            let full_bits: Vec<u32> = full.data.iter().map(|x| x.to_bits()).collect();
            assert_eq!(compact_bits, full_bits, "shape {src:?}");
        }
    }
}

fn run64(flash: bool, q: &HostTensor<f64>, k: &HostTensor<f64>, v: &HostTensor<f64>, bias: HostTensor<f64>) -> HostTensor<f64> {
    let copy = |t: &HostTensor<f64>| HostTensor::new(t.data.clone(), t.shape.clone(), DType::F64);
    let scale = 1.0 / (q.shape[3] as f64).sqrt();
    let mul = |a: f64, b: f64| a * b;
    let cap = |x: f64, c: f64| c * (x / c).tanh();
    let add = |a: f64, b: f64| a + b;
    let gt = |a: f64, b: f64| a > b;
    let eq = |a: f64, b: f64| a == b;
    let exp_shift = |a: f64, b: f64| (a - b).exp();
    let recip = |s: f64| 1.0 / s;
    let ninf = f64::NEG_INFINITY;
    if flash {
        attention_flash(copy(q), copy(k), copy(v), None, Some(bias), scale, None, false, ninf, 0.0, &mul, &cap, &add, &gt, &eq, &exp_shift, &recip, &gemm_nt64, &gemm_nn64)
    } else {
        attention_naive(copy(q), copy(k), copy(v), None, Some(bias), scale, None, false, ninf, 0.0, &mul, &cap, &add, &gt, &eq, &exp_shift, &recip, &gemm_nt64, &gemm_nn64)
    }
}

#[test]
fn trailing_broadcast_keeps_f64_bias_precision() {
    let target = [2, 2, 2, 3];
    let t64 = |data: Vec<f64>, shape: &[usize]| HostTensor::new(data, shape.to_vec(), DType::F64);
    let query = t64(vec![1.0; 8], &[2, 2, 2, 1]);
    let key = t64(vec![1.0; 12], &[2, 2, 3, 1]);
    let value = t64((0..12).map(|i| i as f64).collect(), &[2, 2, 3, 1]);
    let bias = t64(vec![0.0, 1e-10, -1e-10, 0.5, 0.5 + 1e-10, 0.5 - 1e-10], &[1, 2, 1, 3]);
    let dense = expanded(&bias, target);
    for flash in [false, true] {
        let compact = run64(flash, &query, &key, &value, t64(bias.data.clone(), &bias.shape));
        let full = run64(flash, &query, &key, &value, t64(dense.data.clone(), &dense.shape));
        assert_eq!(compact.data, full.data);
    }
}
