use half::{bf16, f16};
use rudnn::activation::{layer_norm, softmax};
use rudnn::attention::run::{cast_from_f32, cast_to_f32};
use rudnn::tensor::{DType, HostTensor};

fn softmax_f32(t: HostTensor<f32>, dim: usize) -> HostTensor<f32> {
    softmax(
        t,
        dim,
        f32::NEG_INFINITY,
        0.0f32,
        &|x: f32| x,
        &|x: f32| x,
        &|a: f32, b: f32| a > b,
        &|x: f32, m: f32| (x - m).exp(),
        &|a: f32, b: f32| a + b,
        &|s: f32| 1.0f32 / s,
        &|h: f32, inv: f32| h * inv,
    )
}

fn softmax_f64(t: HostTensor<f64>, dim: usize) -> HostTensor<f64> {
    softmax(
        t,
        dim,
        f64::NEG_INFINITY,
        0.0f64,
        &|x: f64| x,
        &|x: f64| x,
        &|a: f64, b: f64| a > b,
        &|x: f64, m: f64| (x - m).exp(),
        &|a: f64, b: f64| a + b,
        &|s: f64| 1.0f64 / s,
        &|h: f64, inv: f64| h * inv,
    )
}

fn softmax_f16(t: HostTensor<f16>, dim: usize) -> HostTensor<f16> {
    softmax(
        t,
        dim,
        f32::NEG_INFINITY,
        0.0f32,
        &|x: f16| x.to_f32(),
        &|x: f32| f16::from_f32(x),
        &|a: f32, b: f32| a > b,
        &|x: f32, m: f32| (x - m).exp(),
        &|a: f32, b: f32| a + b,
        &|s: f32| 1.0f32 / s,
        &|h: f16, inv: f32| f16::from_f32(h.to_f32() * inv),
    )
}

fn softmax_bf16(t: HostTensor<bf16>, dim: usize) -> HostTensor<bf16> {
    softmax(
        t,
        dim,
        f32::NEG_INFINITY,
        0.0f32,
        &|x: bf16| x.to_f32(),
        &|x: f32| bf16::from_f32(x),
        &|a: f32, b: f32| a > b,
        &|x: f32, m: f32| (x - m).exp(),
        &|a: f32, b: f32| a + b,
        &|s: f32| 1.0f32 / s,
        &|h: bf16, inv: f32| bf16::from_f32(h.to_f32() * inv),
    )
}

/// Row-wise softmax over the last axis, in f64.
fn softmax_last_ref(data: &[f64], row_len: usize) -> Vec<f64> {
    let mut out = vec![0.0; data.len()];
    for (row, o) in data.chunks(row_len).zip(out.chunks_mut(row_len)) {
        let max = row.iter().copied().fold(f64::NEG_INFINITY, |a, b| if a > b { a } else { b });
        let mut sum = 0.0;
        for (i, &x) in row.iter().enumerate() {
            o[i] = (x - max).exp();
            sum += o[i];
        }
        for v in o.iter_mut() {
            *v /= sum;
        }
    }
    out
}

fn assert_close(actual: &[f64], expected: &[f64], tol: f64) {
    assert_eq!(actual.len(), expected.len());
    for (i, (a, e)) in actual.iter().zip(expected.iter()).enumerate() {
        assert!((a - e).abs() <= tol, "element {}: {} vs {}", i, a, e);
    }
}

#[test]
fn test_softmax_empty_last_dim_returns_input() {
    let t = HostTensor::new(Vec::<f32>::new(), vec![2, 0], DType::F32);
    let result = softmax_f32(t, 1);
    assert_eq!(result.shape.as_slice(), &[2, 0]);
}

#[test]
fn test_softmax_simd_body_row() {
    let data: Vec<f32> = (0..32).map(|i| i as f32 * 0.1).collect();
    let expected = softmax_last_ref(&data.iter().map(|&x| x as f64).collect::<Vec<_>>(), 32);
    let r = softmax_f32(HostTensor::new(data, vec![1, 32], DType::F32), 1);
    assert_eq!(r.shape, vec![1, 32]);
    assert_close(&r.data.iter().map(|&x| x as f64).collect::<Vec<_>>(), &expected, 1e-5);
}

#[test]
fn test_softmax_multi_chunk_rayon() {
    let data: Vec<f32> = (0..100 * 16).map(|i| ((i % 17) as f32) * 0.05).collect();
    let expected = softmax_last_ref(&data.iter().map(|&x| x as f64).collect::<Vec<_>>(), 16);
    let r = softmax_f32(HostTensor::new(data, vec![100, 16], DType::F32), 1);
    assert_close(&r.data.iter().map(|&x| x as f64).collect::<Vec<_>>(), &expected, 1e-5);
}

#[test]
fn test_softmax_simd_body_plus_scalar_tail() {
    let data: Vec<f32> = (0..2 * 34).map(|i| ((i % 17) as f32) * 0.1 - 0.8).collect();
    let expected = softmax_last_ref(&data.iter().map(|&x| x as f64).collect::<Vec<_>>(), 34);
    let r = softmax_f32(HostTensor::new(data, vec![2, 34], DType::F32), 1);
    assert_close(&r.data.iter().map(|&x| x as f64).collect::<Vec<_>>(), &expected, 1e-5);
}

#[test]
fn test_softmax_f64() {
    let data: Vec<f64> = vec![1.0, 2.0, 3.0, 4.0, 5.0, 6.0, 7.0, 8.0];
    let expected = softmax_last_ref(&data, 4);
    let r = softmax_f64(HostTensor::new(data, vec![2, 4], DType::F64), 1);
    assert_eq!(r.dtype, DType::F64);
    assert_close(&r.data, &expected, 1e-10);
}

#[test]
fn test_softmax_f16() {
    let source: Vec<f32> = vec![1.0, 2.0, 3.0, 4.0, 0.5, 0.5, 0.5, 0.5];
    let data: Vec<f16> = source.iter().map(|&x| f16::from_f32(x)).collect();
    let expected = softmax_last_ref(&data.iter().map(|x| x.to_f64()).collect::<Vec<_>>(), 4);
    let r = softmax_f16(HostTensor::new(data, vec![2, 4], DType::F16), 1);
    assert_eq!(r.dtype, DType::F16);
    assert_close(&r.data.iter().map(|x| x.to_f64()).collect::<Vec<_>>(), &expected, 1e-2);
}

#[test]
fn test_softmax_bf16() {
    let source: Vec<f32> = vec![1.0, 2.0, 3.0, 4.0, 0.5, 0.5, 0.5, 0.5];
    let data: Vec<bf16> = source.iter().map(|&x| bf16::from_f32(x)).collect();
    let expected = softmax_last_ref(&data.iter().map(|x| x.to_f64()).collect::<Vec<_>>(), 4);
    let r = softmax_bf16(HostTensor::new(data, vec![2, 4], DType::BF16), 1);
    assert_eq!(r.dtype, DType::BF16);
    assert_close(&r.data.iter().map(|x| x.to_f64()).collect::<Vec<_>>(), &expected, 5e-2);
}

#[test]
fn softmax_uniform_row_is_uniform() {
    let r = softmax_f64(HostTensor::new(vec![3.0; 4], vec![1, 4], DType::F64), 1);
    assert_close(&r.data, &[0.25, 0.25, 0.25, 0.25], 1e-15);
}

#[test]
fn softmax_along_first_axis_works_on_columns() {
    // shape [2, 3]; along axis 0 every column is normalised on its own.
    let data = vec![0.0, 1.0, 2.0, 0.0, 0.0, 4.0];
    let r = softmax_f64(HostTensor::new(data.clone(), vec![2, 3], DType::F64), 0);
    assert_eq!(r.shape, vec![2, 3]);
    for c in 0..3 {
        let col = softmax_last_ref(&[data[c], data[3 + c]], 2);
        assert_close(&[r.data[c], r.data[3 + c]], &col, 1e-12);
    }
}

#[test]
fn softmax_along_middle_axis_matches_transposed_rows() {
    // shape [2, 3, 2]; along axis 1 each (outer, inner) line has 3 elements.
    let data: Vec<f64> = (0..12).map(|i| (i as f64) * 0.3 - 1.0).collect();
    let r = softmax_f64(HostTensor::new(data.clone(), vec![2, 3, 2], DType::F64), 1);
    for o in 0..2 {
        for q in 0..2 {
            let line: Vec<f64> = (0..3).map(|k| data[(o * 3 + k) * 2 + q]).collect();
            let got: Vec<f64> = (0..3).map(|k| r.data[(o * 3 + k) * 2 + q]).collect();
            assert_close(&got, &softmax_last_ref(&line, 3), 1e-12);
        }
    }
}

#[test]
fn softmax_rows_sum_to_one() {
    let data: Vec<f32> = (0..24).map(|i| ((i * 7) % 11) as f32 - 5.0).collect();
    let r = softmax_f32(HostTensor::new(data, vec![4, 6], DType::F32), 1);
    for row in r.data.chunks(6) {
        let s: f32 = row.iter().sum();
        assert!((s - 1.0).abs() < 1e-5);
        assert!(row.iter().all(|&v| v > 0.0 && v <= 1.0));
    }
}

#[test]
fn softmax_ignores_negative_infinity_entries() {
    let r = softmax_f64(HostTensor::new(vec![f64::NEG_INFINITY, 0.0, 0.0], vec![3], DType::F64), 0);
    assert_close(&r.data, &[0.0, 0.5, 0.5], 1e-15);
}

#[test]
fn softmax_with_empty_other_axis_keeps_shape() {
    let t = HostTensor::new(Vec::<f64>::new(), vec![0, 3], DType::F64);
    let r = softmax_f64(t, 1);
    assert_eq!(r.shape, vec![0, 3]);
    assert!(r.data.is_empty());
}

/// Welford row statistics `(mean, 1 / sqrt(var + eps))`.
fn stats_f32(row: &[f32], eps: f32) -> (f32, f32) {
    let mut mean = 0.0f32;
    let mut m2 = 0.0f32;
    for (k, &x) in row.iter().enumerate() {
        let delta = x - mean;
        mean += delta / (k + 1) as f32;
        m2 += delta * (x - mean);
    }
    (mean, 1.0 / (m2 / row.len() as f32 + eps).sqrt())
}

fn stats_f64(row: &[f64], eps: f64) -> (f64, f64) {
    let mut mean = 0.0f64;
    let mut m2 = 0.0f64;
    for (k, &x) in row.iter().enumerate() {
        let delta = x - mean;
        mean += delta / (k + 1) as f64;
        m2 += delta * (x - mean);
    }
    (mean, 1.0 / (m2 / row.len() as f64 + eps).sqrt())
}

fn layer_norm_f32(t: HostTensor<f32>, gamma: Vec<f32>, beta: Option<Vec<f32>>, eps: f32) -> HostTensor<f32> {
    let n = gamma.len();
    layer_norm(
        t,
        HostTensor::new(gamma, vec![n], DType::F32),
        beta.map(|b| HostTensor::new(b, vec![n], DType::F32)),
        eps,
        &stats_f32,
        &|x: f32, m: f32, inv: f32, g: f32| (x - m) * (inv * g),
        &|a: f32, b: f32| a + b,
    )
}

fn layer_norm_f64(t: HostTensor<f64>, gamma: Vec<f64>, beta: Option<Vec<f64>>, eps: f64) -> HostTensor<f64> {
    let n = gamma.len();
    layer_norm(
        t,
        HostTensor::new(gamma, vec![n], DType::F64),
        beta.map(|b| HostTensor::new(b, vec![n], DType::F64)),
        eps,
        &stats_f64,
        &|x: f64, m: f64, inv: f64, g: f64| (x - m) * (inv * g),
        &|a: f64, b: f64| a + b,
    )
}

/// Two-pass reference layer norm over rows of `row_len`.
fn layer_norm_ref(data: &[f64], gamma: &[f64], beta: Option<&[f64]>, eps: f64, row_len: usize) -> Vec<f64> {
    let mut out = vec![0.0; data.len()];
    for (row, o) in data.chunks(row_len).zip(out.chunks_mut(row_len)) {
        let n = row_len as f64;
        let mean = row.iter().sum::<f64>() / n;
        let var = row.iter().map(|&x| (x - mean) * (x - mean)).sum::<f64>() / n;
        let inv = 1.0 / (var + eps).sqrt();
        for i in 0..row_len {
            o[i] = (row[i] - mean) * inv * gamma[i] + beta.map_or(0.0, |b| b[i]);
        }
    }
    out
}

#[test]
fn test_layer_norm_empty_last_dim_returns_input() {
    let t = HostTensor::new(Vec::<f32>::new(), vec![3, 0], DType::F32);
    let r = layer_norm_f32(t, vec![], Some(vec![]), 1e-5);
    assert_eq!(r.shape, vec![3, 0]);
    assert!(r.data.is_empty());
}

#[test]
fn test_layer_norm_2d_with_beta() {
    let t = HostTensor::new(vec![1.0f32, 2.0, 3.0, 4.0, 5.0, 6.0, 7.0, 8.0], vec![2, 4], DType::F32);
    let r = layer_norm_f32(t, vec![1.0; 4], Some(vec![0.0; 4]), 1e-5);
    let want = [-1.3416408, -0.4472136, 0.4472136, 1.3416408, -1.3416408, -0.4472136, 0.4472136, 1.3416408];
    assert_close(&r.data.iter().map(|&x| x as f64).collect::<Vec<_>>(), &want, 1e-4);
}

#[test]
fn test_layer_norm_with_affine() {
    let t = HostTensor::new(vec![1.0f32, 2.0, 3.0, 4.0], vec![1, 4], DType::F32);
    let r = layer_norm_f32(t, vec![2.0, 0.5, 1.0, 3.0], Some(vec![1.0, -1.0, 0.0, 2.0]), 1e-5);
    assert_close(&r.data.iter().map(|&x| x as f64).collect::<Vec<_>>(), &[-1.6833, -1.2236, 0.4472, 6.0249], 1e-3);
}

#[test]
fn test_layer_norm_no_beta() {
    let t = HostTensor::new(vec![1.0f32, 2.0, 3.0, 4.0], vec![1, 4], DType::F32);
    let r = layer_norm_f32(t, vec![1.0; 4], None, 1e-5);
    assert_close(&r.data.iter().map(|&x| x as f64).collect::<Vec<_>>(), &[-1.3416408, -0.4472136, 0.4472136, 1.3416408], 1e-4);
}

#[test]
fn test_layer_norm_simd_body_plus_scalar_tail() {
    let data: Vec<f32> = (0..34).map(|i| (i as f32 * 0.137) - 2.3).collect();
    let gamma: Vec<f32> = (0..17).map(|i| 1.0 + i as f32 * 0.05).collect();
    let beta: Vec<f32> = (0..17).map(|i| i as f32 * 0.01).collect();
    let want = layer_norm_ref(
        &data.iter().map(|&x| x as f64).collect::<Vec<_>>(),
        &gamma.iter().map(|&x| x as f64).collect::<Vec<_>>(),
        Some(&beta.iter().map(|&x| x as f64).collect::<Vec<_>>()),
        1e-5,
        17,
    );
    let r = layer_norm_f32(HostTensor::new(data, vec![2, 17], DType::F32), gamma, Some(beta), 1e-5);
    assert_close(&r.data.iter().map(|&x| x as f64).collect::<Vec<_>>(), &want, 1e-5);
}

#[test]
fn test_layer_norm_f64_with_beta_multi_chunk() {
    let (d, n) = (16, 80);
    let data: Vec<f64> = (0..n * d).map(|i| ((i % 13) as f64) * 0.07 - 0.3).collect();
    let want = layer_norm_ref(&data, &vec![0.9; d], Some(&vec![0.05; d]), 1e-5, d);
    let r = layer_norm_f64(HostTensor::new(data, vec![n, d], DType::F64), vec![0.9; d], Some(vec![0.05; d]), 1e-5);
    assert_eq!(r.shape, vec![n, d]);
    assert_close(&r.data, &want, 1e-10);
}

#[test]
fn test_layer_norm_f64_no_beta() {
    let data = vec![1.0, 2.0, 3.0, 4.0, -1.0, 0.5, 1.5, -0.5];
    let want = layer_norm_ref(&data, &[1.0; 4], None, 1e-5, 4);
    let r = layer_norm_f64(HostTensor::new(data, vec![2, 4], DType::F64), vec![1.0; 4], None, 1e-5);
    assert_close(&r.data, &want, 1e-10);
}

#[test]
fn layer_norm_rows_have_zero_mean() {
    let data: Vec<f64> = (0..12).map(|i| (i * i) as f64 * 0.1).collect();
    let r = layer_norm_f64(HostTensor::new(data, vec![3, 4], DType::F64), vec![1.0; 4], None, 0.0);
    for row in r.data.chunks(4) {
        assert!(row.iter().sum::<f64>().abs() < 1e-12);
        let var: f64 = row.iter().map(|x| x * x).sum::<f64>() / 4.0;
        assert!((var - 1.0).abs() < 1e-9);
    }
}

#[test]
fn test_layer_norm_multi_chunk_rayon() {
    let data: Vec<f32> = (0..128 * 16).map(|i| ((i % 19) as f32) * 0.03).collect();
    let gamma_data: Vec<f32> = vec![1.0; 16];
    let beta_data: Vec<f32> = vec![0.0; 16];
    let want = layer_norm_ref(
        &data.iter().map(|&x| x as f64).collect::<Vec<_>>(),
        &vec![1.0; 16],
        Some(&vec![0.0; 16]),
        1e-5,
        16,
    );
    let r = layer_norm_f32(HostTensor::new(data, vec![128, 16], DType::F32), gamma_data, Some(beta_data), 1e-5);
    assert_eq!(r.shape, vec![128, 16]);
    assert_close(&r.data.iter().map(|&x| x as f64).collect::<Vec<_>>(), &want, 1e-4);
}

/// Layer norm of half-precision data computed in f32 and narrowed back.
fn check_layer_norm_half_precision<E: Copy>(from_f32: fn(f32) -> E, to_f32: fn(E) -> f32, dtype: DType) {
    let rows_f32: [f32; 12] = [1.0, 2.0, 3.0, 4.0, -1.0, 0.0, 1.0, 2.0, 0.5, -0.5, 1.5, -1.5];
    let gamma_f32: [f32; 4] = [1.0, 0.5, 1.5, 1.0];
    let beta_f32: [f32; 4] = [0.1, -0.1, 0.0, 0.2];
    let eps = 1e-5f32;
    let want = layer_norm_ref(
        &rows_f32.iter().map(|&x| x as f64).collect::<Vec<_>>(),
        &gamma_f32.iter().map(|&x| x as f64).collect::<Vec<_>>(),
        Some(&beta_f32.iter().map(|&x| x as f64).collect::<Vec<_>>()),
        eps as f64,
        4,
    );
    let half = |v: &[f32], shape: Vec<usize>| HostTensor::new(v.iter().map(|&x| from_f32(x)).collect::<Vec<E>>(), shape, dtype);
    let widen = |t: HostTensor<E>| cast_to_f32(t, &to_f32);
    let out = layer_norm(
        widen(half(&rows_f32, vec![3, 4])),
        widen(half(&gamma_f32, vec![4])),
        Some(widen(half(&beta_f32, vec![4]))),
        eps,
        &stats_f32,
        &|x: f32, m: f32, inv: f32, g: f32| (x - m) * (inv * g),
        &|a: f32, b: f32| a + b,
    );
    let r = cast_from_f32(out, &from_f32, dtype);
    assert_eq!(r.shape, vec![3, 4]);
    assert_eq!(r.dtype, dtype);
    assert_close(&r.data.iter().map(|&x| to_f32(x) as f64).collect::<Vec<_>>(), &want, 3e-2);
}

#[test]
fn test_layer_norm_f16_via_f32_cast() {
    check_layer_norm_half_precision::<f16>(f16::from_f32, f16::to_f32, DType::F16);
}

#[test]
fn test_layer_norm_bf16_via_f32_cast() {
    check_layer_norm_half_precision::<bf16>(bf16::from_f32, bf16::to_f32, DType::BF16);
}
