use half::{bf16, f16};
use rudnn::conv::forward::{conv1d_f32, conv1d_f64, conv2d_bf16, conv2d_f16, conv2d_f32, conv2d_f64};
use rudnn::conv::plane::conv_plane_accumulate;
use rudnn::conv::{calculate_conv_output_size, should_use_depthwise_conv, should_use_small_channel_conv, valid_out_range, ConvOptions};
use rudnn::tensor::{DType, HostTensor};
use std::ops::{Add, Mul};

fn mac<T: Copy + Add<Output = T> + Mul<Output = T>>(acc: T, w: T, x: T) -> T {
    acc + w * x
}

fn add<T: Copy + Add<Output = T>>(a: T, b: T) -> T {
    a + b
}

/// `lhs` row-major `[m, k]` times the transpose of `rhs` row-major `[n, k]`.
fn gemm_nt<T: Copy + Default + Add<Output = T> + Mul<Output = T>>(a: &[T], b: &[T], m: usize, k: usize, n: usize) -> Vec<T> {
    let mut c = vec![T::default(); m * n];
    for i in 0..m {
        for j in 0..n {
            let mut acc = T::default();
            for r in 0..k {
                acc = acc + a[i * k + r] * b[j * k + r];
            }
            c[i * n + j] = acc;
        }
    }
    c
}

/// `lhs` row-major `[m, k]` times `rhs` row-major `[k, n]`.
fn gemm_nn<T: Copy + Default + Add<Output = T> + Mul<Output = T>>(a: &[T], b: &[T], m: usize, k: usize, n: usize) -> Vec<T> {
    let mut c = vec![T::default(); m * n];
    for i in 0..m {
        for j in 0..n {
            let mut acc = T::default();
            for r in 0..k {
                acc = acc + a[i * k + r] * b[r * n + j];
            }
            c[i * n + j] = acc;
        }
    }
    c
}

fn tensor<T>(data: Vec<T>, shape: Vec<usize>, dtype: DType) -> HostTensor<T> {
    HostTensor::new(data, shape, dtype)
}

fn run_conv2d_f32(
    x: HostTensor<f32>,
    weight: HostTensor<f32>,
    bias: Option<HostTensor<f32>>,
    options: &ConvOptions<2>,
) -> HostTensor<f32> {
    conv2d_f32(x, weight, bias, options, 0.0f32, &mac::<f32>, &add::<f32>, &gemm_nt::<f32>, &gemm_nn::<f32>)
}

fn run_conv1d_f32(
    x: HostTensor<f32>,
    weight: HostTensor<f32>,
    bias: Option<HostTensor<f32>>,
    options: &ConvOptions<1>,
) -> HostTensor<f32> {
    conv1d_f32(x, weight, bias, options, 0.0f32, &mac::<f32>, &add::<f32>, &gemm_nt::<f32>, &gemm_nn::<f32>)
}

#[test]
fn test_conv1d_direct_path() {
    // c_in=64 >= 32, kernel=3, stride=2, out_w=49 <= 800 -> hits direct path
    let c_in = 64;
    let c_out = 32;
    let in_w = 100;
    let kw = 3;
    let stride = 2;
    let out_w = (in_w - kw) / stride + 1; // 49

    let x_data: Vec<f32> = (0..c_in * in_w).map(|i| ((i % 100) as f32 / 100.0) - 0.5).collect();
    let w_data: Vec<f32> = (0..c_out * c_in * kw).map(|i| ((i % 50) as f32 / 50.0) - 0.5).collect();

    let x = tensor(x_data.clone(), vec![1, c_in, in_w], DType::F32);
    let weight = tensor(w_data.clone(), vec![c_out, c_in, kw], DType::F32);
    let options = ConvOptions::new([stride], [0], [1], 1);
    let result = run_conv1d_f32(x, weight, None, &options);
    let out = result.data;

    assert_eq!(out.len(), c_out * out_w);

    for co in 0..c_out {
        for o in 0..out_w {
            let mut expected = 0.0f32;
            for ci in 0..c_in {
                for k in 0..kw {
                    expected += w_data[co * c_in * kw + ci * kw + k] * x_data[ci * in_w + o * stride + k];
                }
            }
            let actual = out[co * out_w + o];
            assert!(
                (actual - expected).abs() < 1e-3,
                "mismatch at co={co}, o={o}: expected {expected}, got {actual}"
            );
        }
    }
}

#[test]
fn test_conv1d_direct_path_kw2() {
    // Test with kw=2 (L5/L6 shapes use kw=2)
    let c_in = 64;
    let c_out = 32;
    let in_w = 50;
    let kw = 2;
    let stride = 2;
    let out_w = (in_w - kw) / stride + 1; // 24

    let x_data: Vec<f32> = (0..c_in * in_w).map(|i| ((i % 100) as f32 / 100.0) - 0.5).collect();
    let w_data: Vec<f32> = (0..c_out * c_in * kw).map(|i| ((i % 50) as f32 / 50.0) - 0.5).collect();

    let x = tensor(x_data.clone(), vec![1, c_in, in_w], DType::F32);
    let weight = tensor(w_data.clone(), vec![c_out, c_in, kw], DType::F32);
    let options = ConvOptions::new([stride], [0], [1], 1);
    let result = run_conv1d_f32(x, weight, None, &options);
    let out = result.data;

    for co in 0..c_out {
        for o in 0..out_w {
            let mut expected = 0.0f32;
            for ci in 0..c_in {
                for k in 0..kw {
                    expected += w_data[co * c_in * kw + ci * kw + k] * x_data[ci * in_w + o * stride + k];
                }
            }
            let actual = out[co * out_w + o];
            assert!(
                (actual - expected).abs() < 1e-3,
                "mismatch at co={co}, o={o}: expected {expected}, got {actual}"
            );
        }
    }
}

#[test]
fn test_conv1d_direct_path_f64() {
    let c_in = 64;
    let c_out = 16;
    let in_w = 50;
    let kw = 3;
    let stride = 2;
    let out_w = (in_w - kw) / stride + 1;

    let x_data: Vec<f64> = (0..c_in * in_w).map(|i| ((i % 100) as f64 / 100.0) - 0.5).collect();
    let w_data: Vec<f64> = (0..c_out * c_in * kw).map(|i| ((i % 50) as f64 / 50.0) - 0.5).collect();

    let x = tensor(x_data.clone(), vec![1, c_in, in_w], DType::F64);
    let weight = tensor(w_data.clone(), vec![c_out, c_in, kw], DType::F64);
    let options = ConvOptions::new([stride], [0], [1], 1);
    let result = conv1d_f64(x, weight, None, &options, 0.0f64, &mac::<f64>, &add::<f64>, &gemm_nt::<f64>, &gemm_nn::<f64>);
    let out = result.data;

    for co in 0..c_out {
        for o in 0..out_w {
            let mut expected = 0.0f64;
            for ci in 0..c_in {
                for k in 0..kw {
                    expected += w_data[co * c_in * kw + ci * kw + k] * x_data[ci * in_w + o * stride + k];
                }
            }
            let actual = out[co * out_w + o];
            assert!(
                (actual - expected).abs() < 1e-10,
                "f64 mismatch at co={co}, o={o}: expected {expected}, got {actual}"
            );
        }
    }
}

#[test]
fn test_conv1d_direct_path_with_bias() {
    let c_in = 64;
    let c_out = 32;
    let in_w = 50;
    let kw = 2;
    let stride = 2;
    let out_w = (in_w - kw) / stride + 1;

    let x_data: Vec<f32> = (0..c_in * in_w).map(|i| ((i % 100) as f32 / 100.0) - 0.5).collect();
    let w_data: Vec<f32> = (0..c_out * c_in * kw).map(|i| ((i % 50) as f32 / 50.0) - 0.5).collect();
    let bias_data: Vec<f32> = (0..c_out).map(|i| i as f32 * 0.1).collect();

    let x = tensor(x_data.clone(), vec![1, c_in, in_w], DType::F32);
    let weight = tensor(w_data.clone(), vec![c_out, c_in, kw], DType::F32);
    let bias = tensor(bias_data.clone(), vec![c_out], DType::F32);
    let options = ConvOptions::new([stride], [0], [1], 1);
    let result = run_conv1d_f32(x, weight, Some(bias), &options);
    let out = result.data;

    for co in 0..c_out {
        for o in 0..out_w {
            let mut expected = bias_data[co];
            for ci in 0..c_in {
                for k in 0..kw {
                    expected += w_data[co * c_in * kw + ci * kw + k] * x_data[ci * in_w + o * stride + k];
                }
            }
            let actual = out[co * out_w + o];
            assert!(
                (actual - expected).abs() < 1e-3,
                "bias mismatch at co={co}, o={o}: expected {expected}, got {actual}"
            );
        }
    }
}

#[test]
fn test_conv2d_f64() {
    let x_data: Vec<f64> = (1..=16).map(|x| x as f64).collect();
    let x = tensor(x_data, vec![1, 1, 4, 4], DType::F64);
    let w_data = vec![1.0f64; 4];
    let weight = tensor(w_data, vec![1, 1, 2, 2], DType::F64);
    let options = ConvOptions::new([1, 1], [0, 0], [1, 1], 1);
    let result = conv2d_f64(x, weight, None, &options, 0.0f64, &mac::<f64>, &add::<f64>, &gemm_nt::<f64>, &gemm_nn::<f64>);
    assert_eq!(result.data, vec![14.0, 18.0, 22.0, 30.0, 34.0, 38.0, 46.0, 50.0, 54.0]);
}

#[test]
fn test_conv2d_f16() {
    let x_data: Vec<f16> = (1..=16).map(|x| f16::from_f32(x as f32)).collect();
    let x = tensor(x_data, vec![1, 1, 4, 4], DType::F16);
    let w_data: Vec<f16> = vec![f16::from_f32(1.0); 4];
    let weight = tensor(w_data, vec![1, 1, 2, 2], DType::F16);
    let options = ConvOptions::new([1, 1], [0, 0], [1, 1], 1);
    let result = conv2d_f16(x, weight, None, &options, f16::from_f32(0.0), &mac::<f16>, &add::<f16>, &gemm_nt::<f16>, &gemm_nn::<f16>);
    let expected = vec![14.0, 18.0, 22.0, 30.0, 34.0, 38.0, 46.0, 50.0, 54.0];
    for (a, e) in result.data.iter().zip(expected.iter()) {
        assert!((a.to_f32() - e).abs() < 0.5);
    }
}

#[test]
fn test_conv2d_bf16() {
    let x_data: Vec<bf16> = (1..=16).map(|x| bf16::from_f32(x as f32)).collect();
    let x = tensor(x_data, vec![1, 1, 4, 4], DType::BF16);
    let w_data: Vec<bf16> = vec![bf16::from_f32(1.0); 4];
    let weight = tensor(w_data, vec![1, 1, 2, 2], DType::BF16);
    let options = ConvOptions::new([1, 1], [0, 0], [1, 1], 1);
    let result = conv2d_bf16(
        x,
        weight,
        None,
        &options,
        0.0f32,
        &mac::<f32>,
        &add::<f32>,
        &gemm_nt::<f32>,
        &gemm_nn::<f32>,
        &|v: bf16| v.to_f32(),
        &bf16::from_f32,
    );
    assert_eq!(result.dtype, DType::BF16);
    let expected = vec![14.0, 18.0, 22.0, 30.0, 34.0, 38.0, 46.0, 50.0, 54.0];
    for (a, e) in result.data.iter().zip(expected.iter()) {
        assert!((a.to_f32() - e).abs() < 0.5);
    }
}

/// Naive NCHW depthwise conv2d reference implementation.
/// Returns output with shape `[batch, channels, out_h, out_w]`.
#[allow(clippy::too_many_arguments)]
fn naive_depthwise_conv2d_f32(
    x: &[f32],
    w: &[f32],
    bias: Option<&[f32]>,
    batch: usize,
    channels: usize,
    in_h: usize,
    in_w: usize,
    kernel_h: usize,
    kernel_w: usize,
    stride_h: usize,
    stride_w: usize,
    pad_h: usize,
    pad_w: usize,
    dilation_h: usize,
    dilation_w: usize,
) -> (Vec<f32>, usize, usize) {
    let out_h = (in_h + 2 * pad_h - dilation_h * (kernel_h - 1) - 1) / stride_h + 1;
    let out_w = (in_w + 2 * pad_w - dilation_w * (kernel_w - 1) - 1) / stride_w + 1;
    let mut out = vec![0.0f32; batch * channels * out_h * out_w];
    for b in 0..batch {
        for c in 0..channels {
            for oh in 0..out_h {
                for ow in 0..out_w {
                    let mut acc = 0.0f32;
                    for kh in 0..kernel_h {
                        let ih = oh as isize * stride_h as isize + kh as isize * dilation_h as isize - pad_h as isize;
                        if ih < 0 || ih >= in_h as isize {
                            continue;
                        }
                        for kw in 0..kernel_w {
                            let iw = ow as isize * stride_w as isize + kw as isize * dilation_w as isize - pad_w as isize;
                            if iw < 0 || iw >= in_w as isize {
                                continue;
                            }
                            let x_idx = ((b * channels + c) * in_h + ih as usize) * in_w + iw as usize;
                            let w_idx = (c * kernel_h + kh) * kernel_w + kw;
                            acc += x[x_idx] * w[w_idx];
                        }
                    }
                    if let Some(bias) = bias {
                        acc += bias[c];
                    }
                    let o_idx = ((b * channels + c) * out_h + oh) * out_w + ow;
                    out[o_idx] = acc;
                }
            }
        }
    }
    (out, out_h, out_w)
}

/// Build deterministic pseudo-random input for a depthwise test.
fn seeded_vec_f32(n: usize, seed: u32) -> Vec<f32> {
    (0..n)
        .map(|i| {
            let v = ((i as u32).wrapping_mul(2654435761).wrapping_add(seed)) & 0xffff;
            (v as f32 / 32768.0) - 1.0
        })
        .collect()
}

/// Run conv2d through the public dispatch (which must pick the depthwise
/// path for these shapes) and compare to the naive reference.
#[allow(clippy::too_many_arguments)]
fn check_depthwise_conv2d_f32(
    batch: usize,
    channels: usize,
    in_h: usize,
    in_w: usize,
    kernel_h: usize,
    kernel_w: usize,
    stride: [usize; 2],
    padding: [usize; 2],
    dilation: [usize; 2],
    with_bias: bool,
) {
    let x_vec = seeded_vec_f32(batch * channels * in_h * in_w, 1);
    let w_vec = seeded_vec_f32(channels * kernel_h * kernel_w, 2);
    let bias_vec = if with_bias { Some(seeded_vec_f32(channels, 3)) } else { None };

    let (expected, out_h, out_w) = naive_depthwise_conv2d_f32(
        &x_vec,
        &w_vec,
        bias_vec.as_deref(),
        batch,
        channels,
        in_h,
        in_w,
        kernel_h,
        kernel_w,
        stride[0],
        stride[1],
        padding[0],
        padding[1],
        dilation[0],
        dilation[1],
    );

    let x = tensor(x_vec, vec![batch, channels, in_h, in_w], DType::F32);
    let weight = tensor(w_vec, vec![channels, 1, kernel_h, kernel_w], DType::F32);
    let bias = bias_vec.map(|v| tensor(v, vec![channels], DType::F32));
    let options = ConvOptions::new(stride, padding, dilation, channels);
    let result = run_conv2d_f32(x, weight, bias, &options);

    assert_eq!(result.shape, vec![batch, channels, out_h, out_w], "output shape mismatch");

    let out = result.data;
    assert_eq!(out.len(), expected.len());
    for (i, (a, e)) in out.iter().zip(expected.iter()).enumerate() {
        assert!((a - e).abs() < 1e-4, "mismatch at {i}: got {a}, expected {e}");
    }
}

#[test]
fn test_conv2d_depthwise_3x3_no_pad() {
    // Canonical depthwise: groups == channels_in == channels_out = 8, 3x3.
    check_depthwise_conv2d_f32(2, 8, 16, 16, 3, 3, [1, 1], [0, 0], [1, 1], false);
}

#[test]
fn test_conv2d_depthwise_3x3_pad1() {
    // Same input and output size via padding=1.
    check_depthwise_conv2d_f32(2, 8, 16, 16, 3, 3, [1, 1], [1, 1], [1, 1], false);
}

#[test]
fn test_conv2d_depthwise_3x3_stride2_pad1() {
    // Halve spatial via stride 2, with padding.
    check_depthwise_conv2d_f32(1, 16, 32, 32, 3, 3, [2, 2], [1, 1], [1, 1], false);
}

#[test]
fn test_conv2d_depthwise_5x5_pad2() {
    check_depthwise_conv2d_f32(2, 4, 10, 10, 5, 5, [1, 1], [2, 2], [1, 1], false);
}

#[test]
fn test_conv2d_depthwise_7x7_pad3() {
    // Large kernel like ConvNeXt's 7x7 depthwise.
    check_depthwise_conv2d_f32(2, 24, 14, 14, 7, 7, [1, 1], [3, 3], [1, 1], false);
}

#[test]
fn test_conv2d_depthwise_dilated() {
    // Dilation 2 means the effective receptive field is 5x5 but with gaps.
    check_depthwise_conv2d_f32(1, 8, 12, 12, 3, 3, [1, 1], [2, 2], [2, 2], false);
}

#[test]
fn test_conv2d_depthwise_with_bias() {
    check_depthwise_conv2d_f32(2, 8, 8, 8, 3, 3, [1, 1], [1, 1], [1, 1], true);
}

#[test]
fn test_conv2d_depthwise_single_channel() {
    // groups = channels_in = 1 is a degenerate depthwise which should still
    // go through this path.
    check_depthwise_conv2d_f32(1, 1, 5, 5, 3, 3, [1, 1], [1, 1], [1, 1], false);
}

#[test]
fn test_conv2d_depthwise_asymmetric_kernel() {
    // Non-square kernel.
    check_depthwise_conv2d_f32(1, 4, 8, 12, 3, 5, [1, 1], [1, 2], [1, 1], false);
}

#[test]
fn test_conv2d_depthwise_f64() {
    // Smoke test f64 dispatch through depthwise path.
    let x_data: Vec<f64> = (0..2 * 4 * 5 * 5).map(|i| (i as f64) * 0.1).collect();
    let w_data: Vec<f64> = (0..4 * 3 * 3).map(|i| (i as f64) * 0.01).collect();
    let x = tensor(x_data.clone(), vec![2, 4, 5, 5], DType::F64);
    let weight = tensor(w_data.clone(), vec![4, 1, 3, 3], DType::F64);
    let options = ConvOptions::new([1, 1], [1, 1], [1, 1], 4);
    let result = conv2d_f64(x, weight, None, &options, 0.0f64, &mac::<f64>, &add::<f64>, &gemm_nt::<f64>, &gemm_nn::<f64>);
    let out = result.data;

    // Verify against a naive f64 reference for one element (center of channel 2).
    let b = 0usize;
    let c = 2usize;
    let oh = 2usize;
    let ow = 2usize;
    let mut expected = 0.0f64;
    for kh in 0..3 {
        for kw in 0..3 {
            let ih = oh as isize + kh as isize - 1;
            let iw = ow as isize + kw as isize - 1;
            if ih >= 0 && ih < 5 && iw >= 0 && iw < 5 {
                let x_idx = ((b * 4 + c) * 5 + ih as usize) * 5 + iw as usize;
                let w_idx = (c * 3 + kh) * 3 + kw;
                expected += x_data[x_idx] * w_data[w_idx];
            }
        }
    }
    let out_idx = ((b * 4 + c) * 5 + oh) * 5 + ow;
    assert!((out[out_idx] - expected).abs() < 1e-10);
}

#[test]
fn test_conv2d_depthwise_f16() {
    // Validate f16 depthwise dispatch against a naive f32 reference.
    let x_data_f32: Vec<f32> = (0..16).map(|i| i as f32 * 0.1).collect();
    let w_data_f32: Vec<f32> = (0..16).map(|i| i as f32 * 0.01).collect();
    let x_data: Vec<f16> = x_data_f32.iter().copied().map(f16::from_f32).collect();
    let w_data: Vec<f16> = w_data_f32.iter().copied().map(f16::from_f32).collect();
    let x = tensor(x_data, vec![1, 4, 2, 2], DType::F16);
    let weight = tensor(w_data, vec![4, 1, 2, 2], DType::F16);
    let options = ConvOptions::new([1, 1], [0, 0], [1, 1], 4);
    let result = conv2d_f16(x, weight, None, &options, f16::from_f32(0.0), &mac::<f16>, &add::<f16>, &gemm_nt::<f16>, &gemm_nn::<f16>);
    assert_eq!(result.shape, vec![1, 4, 1, 1]);
    let out = result.data;

    // Depthwise: out[c] = sum over (kh, kw) of x[c, kh, kw] * w[c, 0, kh, kw].
    for c in 0..4 {
        let mut expected = 0.0f32;
        for k in 0..4 {
            expected += x_data_f32[c * 4 + k] * w_data_f32[c * 4 + k];
        }
        let actual = out[c].to_f32();
        assert!(
            (actual - expected).abs() < 1e-2,
            "f16 depthwise mismatch at c={c}: expected {expected}, got {actual}"
        );
    }
}

#[test]
fn test_conv1d_depthwise() {
    // conv1d -> conv3d expansion (kd=kh=1), depthwise on the last axis.
    let channels = 4;
    let in_w = 16;
    let kw = 3;
    let x_data = seeded_vec_f32(channels * in_w, 10);
    let w_data = seeded_vec_f32(channels * kw, 20);
    let x = tensor(x_data.clone(), vec![1, channels, in_w], DType::F32);
    let weight = tensor(w_data.clone(), vec![channels, 1, kw], DType::F32);
    let options = ConvOptions::new([1], [1], [1], channels);
    let result = run_conv1d_f32(x, weight, None, &options);
    let out_w = in_w;
    assert_eq!(result.shape, vec![1, channels, out_w]);
    let out = result.data;

    for c in 0..channels {
        for o in 0..out_w {
            let mut expected = 0.0f32;
            for k in 0..kw {
                let i = o as isize + k as isize - 1;
                if i >= 0 && i < in_w as isize {
                    expected += x_data[c * in_w + i as usize] * w_data[c * kw + k];
                }
            }
            let actual = out[c * out_w + o];
            assert!(
                (actual - expected).abs() < 1e-5,
                "conv1d depthwise mismatch at c={c}, o={o}: expected {expected}, got {actual}"
            );
        }
    }
}

#[test]
fn test_conv1d_depthwise_stride_batch_bias() {
    // Depthwise conv1d with batch > 1, stride > 1, padding, and bias.
    let batch = 3;
    let channels = 6;
    let in_w = 32;
    let kw = 5;
    let stride = 2;
    let pad = 2;
    let out_w = (in_w + 2 * pad - kw) / stride + 1;

    let x_data = seeded_vec_f32(batch * channels * in_w, 30);
    let w_data = seeded_vec_f32(channels * kw, 40);
    let bias_data = seeded_vec_f32(channels, 50);

    let x = tensor(x_data.clone(), vec![batch, channels, in_w], DType::F32);
    let weight = tensor(w_data.clone(), vec![channels, 1, kw], DType::F32);
    let bias = tensor(bias_data.clone(), vec![channels], DType::F32);
    let options = ConvOptions::new([stride], [pad], [1], channels);
    let result = run_conv1d_f32(x, weight, Some(bias), &options);
    assert_eq!(result.shape, vec![batch, channels, out_w]);
    let out = result.data;

    for b in 0..batch {
        for c in 0..channels {
            for o in 0..out_w {
                let mut expected = bias_data[c];
                for k in 0..kw {
                    let i = (o as isize * stride as isize) + k as isize - pad as isize;
                    if i >= 0 && i < in_w as isize {
                        let x_idx = (b * channels + c) * in_w + i as usize;
                        let w_idx = c * kw + k;
                        expected += x_data[x_idx] * w_data[w_idx];
                    }
                }
                let actual = out[(b * channels + c) * out_w + o];
                assert!((actual - expected).abs() < 1e-4, "mismatch at b={b}, c={c}, o={o}");
            }
        }
    }
}

#[allow(clippy::too_many_arguments)]
fn naive_conv2d_f32(
    x: &[f32],
    w: &[f32],
    bias: Option<&[f32]>,
    batch: usize,
    channels_in: usize,
    channels_out: usize,
    in_h: usize,
    in_w: usize,
    kernel_h: usize,
    kernel_w: usize,
    stride_h: usize,
    stride_w: usize,
    pad_h: usize,
    pad_w: usize,
    dilation_h: usize,
    dilation_w: usize,
) -> (Vec<f32>, usize, usize) {
    let out_h = (in_h + 2 * pad_h - dilation_h * (kernel_h - 1) - 1) / stride_h + 1;
    let out_w = (in_w + 2 * pad_w - dilation_w * (kernel_w - 1) - 1) / stride_w + 1;
    let mut out = vec![0.0f32; batch * channels_out * out_h * out_w];
    for b in 0..batch {
        for co in 0..channels_out {
            for oh in 0..out_h {
                for ow in 0..out_w {
                    let mut acc = 0.0f32;
                    for ci in 0..channels_in {
                        for kh in 0..kernel_h {
                            let ih = oh as isize * stride_h as isize + kh as isize * dilation_h as isize - pad_h as isize;
                            if ih < 0 || ih >= in_h as isize {
                                continue;
                            }
                            for kw in 0..kernel_w {
                                let iw = ow as isize * stride_w as isize + kw as isize * dilation_w as isize - pad_w as isize;
                                if iw < 0 || iw >= in_w as isize {
                                    continue;
                                }
                                let x_idx = ((b * channels_in + ci) * in_h + ih as usize) * in_w + iw as usize;
                                let w_idx = ((co * channels_in + ci) * kernel_h + kh) * kernel_w + kw;
                                acc += x[x_idx] * w[w_idx];
                            }
                        }
                    }
                    if let Some(bias) = bias {
                        acc += bias[co];
                    }
                    let o_idx = ((b * channels_out + co) * out_h + oh) * out_w + ow;
                    out[o_idx] = acc;
                }
            }
        }
    }
    (out, out_h, out_w)
}

#[allow(clippy::too_many_arguments)]
fn check_small_channel_conv2d_f32(
    batch: usize,
    channels_in: usize,
    channels_out: usize,
    in_h: usize,
    in_w: usize,
    kernel_h: usize,
    kernel_w: usize,
    stride: [usize; 2],
    padding: [usize; 2],
    dilation: [usize; 2],
    with_bias: bool,
) {
    let x_vec = seeded_vec_f32(batch * channels_in * in_h * in_w, 100);
    let w_vec = seeded_vec_f32(channels_out * channels_in * kernel_h * kernel_w, 200);
    let bias_vec = if with_bias { Some(seeded_vec_f32(channels_out, 300)) } else { None };

    let (expected, out_h, out_w) = naive_conv2d_f32(
        &x_vec,
        &w_vec,
        bias_vec.as_deref(),
        batch,
        channels_in,
        channels_out,
        in_h,
        in_w,
        kernel_h,
        kernel_w,
        stride[0],
        stride[1],
        padding[0],
        padding[1],
        dilation[0],
        dilation[1],
    );

    let x = tensor(x_vec, vec![batch, channels_in, in_h, in_w], DType::F32);
    let weight = tensor(w_vec, vec![channels_out, channels_in, kernel_h, kernel_w], DType::F32);
    let bias = bias_vec.map(|v| tensor(v, vec![channels_out], DType::F32));
    let options = ConvOptions::new(stride, padding, dilation, 1);
    let result = run_conv2d_f32(x, weight, bias, &options);

    assert_eq!(result.shape, vec![batch, channels_out, out_h, out_w], "output shape mismatch");

    let out = result.data;
    assert_eq!(out.len(), expected.len());
    for (i, (a, e)) in out.iter().zip(expected.iter()).enumerate() {
        assert!((a - e).abs() < 1e-3, "mismatch at {i}: got {a}, expected {e}");
    }
}

#[test]
fn test_conv2d_small_channel_3in_8out_k3x3_pad1() {
    // Sobel-like: 3 input channels, several output channels, 3x3 kernel.
    check_small_channel_conv2d_f32(2, 3, 8, 16, 16, 3, 3, [1, 1], [1, 1], [1, 1], false);
}

#[test]
fn test_conv2d_small_channel_3in_3out_k3x3_no_pad() {
    // Channels_in == channels_out == 3 but groups=1, so each output channel
    // combines all input channels (not depthwise).
    check_small_channel_conv2d_f32(1, 3, 3, 10, 10, 3, 3, [1, 1], [0, 0], [1, 1], false);
}

#[test]
fn test_conv2d_small_channel_3in_16out_k5x5_pad2() {
    check_small_channel_conv2d_f32(2, 3, 16, 12, 12, 5, 5, [1, 1], [2, 2], [1, 1], false);
}

#[test]
fn test_conv2d_small_channel_4in_8out_k3x3_stride2() {
    // Threshold channels_in == 4.
    check_small_channel_conv2d_f32(1, 4, 8, 16, 16, 3, 3, [2, 2], [1, 1], [1, 1], false);
}

#[test]
fn test_conv2d_small_channel_2in_4out_dilated() {
    check_small_channel_conv2d_f32(1, 2, 4, 12, 12, 3, 3, [1, 1], [2, 2], [2, 2], false);
}

#[test]
fn test_conv2d_small_channel_with_bias() {
    check_small_channel_conv2d_f32(2, 3, 8, 8, 8, 3, 3, [1, 1], [1, 1], [1, 1], true);
}

#[test]
fn test_conv2d_small_channel_asymmetric_kernel() {
    // 1x3 and 3x1 kernels are common for separable edge filters.
    check_small_channel_conv2d_f32(1, 3, 6, 16, 16, 1, 3, [1, 1], [0, 1], [1, 1], false);
    check_small_channel_conv2d_f32(1, 3, 6, 16, 16, 3, 1, [1, 1], [1, 0], [1, 1], false);
}

#[test]
fn test_conv2d_small_channel_f64() {
    // Smoke test f64 dispatch.
    let x_data: Vec<f64> = (0..2 * 3 * 5 * 5).map(|i| (i as f64) * 0.1).collect();
    let w_data: Vec<f64> = (0..4 * 3 * 3 * 3).map(|i| (i as f64) * 0.01).collect();
    let x = tensor(x_data.clone(), vec![2, 3, 5, 5], DType::F64);
    let weight = tensor(w_data.clone(), vec![4, 3, 3, 3], DType::F64);
    let options = ConvOptions::new([1, 1], [1, 1], [1, 1], 1);
    let result = conv2d_f64(x, weight, None, &options, 0.0f64, &mac::<f64>, &add::<f64>, &gemm_nt::<f64>, &gemm_nn::<f64>);
    let out = result.data;

    let b = 0usize;
    let co = 2usize;
    let oh = 2usize;
    let ow = 2usize;
    let mut expected = 0.0f64;
    for ci in 0..3 {
        for kh in 0..3 {
            for kw in 0..3 {
                let ih = oh as isize + kh as isize - 1;
                let iw = ow as isize + kw as isize - 1;
                if ih >= 0 && ih < 5 && iw >= 0 && iw < 5 {
                    let x_idx = ((b * 3 + ci) * 5 + ih as usize) * 5 + iw as usize;
                    let w_idx = ((co * 3 + ci) * 3 + kh) * 3 + kw;
                    expected += x_data[x_idx] * w_data[w_idx];
                }
            }
        }
    }
    let out_idx = ((b * 4 + co) * 5 + oh) * 5 + ow;
    assert!((out[out_idx] - expected).abs() < 1e-10, "got {}, expected {expected}", out[out_idx]);
}

#[test]
fn test_conv2d_small_channel_f16() {
    // Validate f16 dispatch through the small-channel path by running the
    // same shape through the f32 path and comparing element-wise.
    let x_data_f32: Vec<f32> = (0..3 * 4 * 4).map(|i| i as f32 * 0.1).collect();
    let w_data_f32: Vec<f32> = (0..4 * 3 * 3 * 3).map(|i| i as f32 * 0.01).collect();

    let x_data_f16: Vec<f16> = x_data_f32.iter().copied().map(f16::from_f32).collect();
    let w_data_f16: Vec<f16> = w_data_f32.iter().copied().map(f16::from_f32).collect();

    let x_f16 = tensor(x_data_f16, vec![1, 3, 4, 4], DType::F16);
    let weight_f16 = tensor(w_data_f16, vec![4, 3, 3, 3], DType::F16);
    let x_f32 = tensor(x_data_f32, vec![1, 3, 4, 4], DType::F32);
    let weight_f32 = tensor(w_data_f32, vec![4, 3, 3, 3], DType::F32);

    let options = ConvOptions::new([1, 1], [1, 1], [1, 1], 1);
    let result_f16 = conv2d_f16(x_f16, weight_f16, None, &options, f16::from_f32(0.0), &mac::<f16>, &add::<f16>, &gemm_nt::<f16>, &gemm_nn::<f16>);
    let result_f32 = run_conv2d_f32(x_f32, weight_f32, None, &options);
    assert_eq!(result_f16.shape, vec![1, 4, 4, 4]);
    assert_eq!(result_f32.shape, vec![1, 4, 4, 4]);

    let out_f16 = result_f16.data;
    let out_f32 = result_f32.data;
    assert_eq!(out_f16.len(), out_f32.len());

    let rel_tol = 3e-3f32;
    let abs_tol = 1e-2f32;
    for (i, (actual, expected)) in out_f16.iter().zip(out_f32.iter()).enumerate() {
        let actual_f32 = actual.to_f32();
        let bound = (expected.abs() * rel_tol).max(abs_tol);
        assert!(
            !actual_f32.is_nan() && (actual_f32 - expected).abs() <= bound,
            "f16 small-channel mismatch at {i}: got {actual_f32}, expected {expected}, bound {bound}"
        );
    }
}

#[test]
fn test_conv_plane_accumulate_accumulates_into_prefilled() {
    // `conv_plane_accumulate` accumulates into `out_plane` rather than
    // overwriting it. Single 2x2 input -> single 2x2 output, 1x1 kernel with
    // weight 1.0, prefilled with [10, 20, 30, 40].
    let x = vec![1.0f32, 2.0, 3.0, 4.0];
    let w = vec![1.0f32]; // 1x1 kernel, weight = 1
    let mut out_plane = vec![10.0f32, 20.0, 30.0, 40.0];

    let oh_ranges = [(0usize, 2usize)]; // per kh: (out_start, out_end)
    let ow_ranges = [(0usize, 2usize)]; // per kw: (out_start, out_end)

    conv_plane_accumulate(
        &mut out_plane,
        &x,
        &w,
        /* kernel_h */ 1,
        /* kernel_w */ 1,
        /* in_w */ 2,
        /* out_w */ 2,
        /* stride_h */ 1,
        /* stride_w */ 1,
        /* pad_h */ 0,
        /* pad_w */ 0,
        /* dilation_h */ 1,
        /* dilation_w */ 1,
        &oh_ranges,
        &ow_ranges,
        &mac::<f32>,
    );

    // Expected: prefill + (x * 1.0) element-wise.
    assert_eq!(out_plane, vec![11.0f32, 22.0, 33.0, 44.0]);
}

#[test]
fn test_conv1d_small_channel_3in() {
    // conv1d -> conv3d expansion with groups=1 and 3 input channels.
    let batch = 2;
    let channels_in = 3;
    let channels_out = 5;
    let in_w = 24;
    let kw = 5;
    let stride = 1;
    let pad = 2;
    let out_w = in_w; // same padding

    let x_data = seeded_vec_f32(batch * channels_in * in_w, 400);
    let w_data = seeded_vec_f32(channels_out * channels_in * kw, 500);
    let x = tensor(x_data.clone(), vec![batch, channels_in, in_w], DType::F32);
    let weight = tensor(w_data.clone(), vec![channels_out, channels_in, kw], DType::F32);
    let options = ConvOptions::new([stride], [pad], [1], 1);
    let result = run_conv1d_f32(x, weight, None, &options);
    assert_eq!(result.shape, vec![batch, channels_out, out_w]);
    let out = result.data;

    for b in 0..batch {
        for co in 0..channels_out {
            for o in 0..out_w {
                let mut expected = 0.0f32;
                for ci in 0..channels_in {
                    for k in 0..kw {
                        let i = o as isize + k as isize - pad as isize;
                        if i >= 0 && i < in_w as isize {
                            let x_idx = (b * channels_in + ci) * in_w + i as usize;
                            let w_idx = (co * channels_in + ci) * kw + k;
                            expected += x_data[x_idx] * w_data[w_idx];
                        }
                    }
                }
                let actual = out[(b * channels_out + co) * out_w + o];
                assert!(
                    (actual - expected).abs() < 1e-4,
                    "mismatch at b={b}, co={co}, o={o}: expected {expected}, got {actual}"
                );
            }
        }
    }
}

#[test]
fn test_conv2d_small_channel_single_input() {
    // 1 input channel is allowed (<= threshold); cross-check against the
    // naive reference.
    check_small_channel_conv2d_f32(1, 1, 4, 8, 8, 3, 3, [1, 1], [1, 1], [1, 1], false);
}

#[test]
fn test_conv2d_small_channel_threshold_exact() {
    // c_in == 4, c_out == 16: exactly at the thresholds, should trigger.
    assert!(should_use_small_channel_conv(
        &[1, 4, 1, 8, 8],
        &[16, 4, 1, 3, 3],
        &ConvOptions::new([1, 1, 1], [0, 1, 1], [1, 1, 1], 1),
    ));
    // c_in == 5: excluded.
    assert!(!should_use_small_channel_conv(
        &[1, 5, 1, 8, 8],
        &[2, 5, 1, 3, 3],
        &ConvOptions::new([1, 1, 1], [0, 1, 1], [1, 1, 1], 1),
    ));
    // c_in == 3, c_out == 17: excluded (large output channel count).
    assert!(!should_use_small_channel_conv(
        &[1, 3, 1, 8, 8],
        &[17, 3, 1, 3, 3],
        &ConvOptions::new([1, 1, 1], [0, 1, 1], [1, 1, 1], 1),
    ));
    // c_in == 3, c_out == 64 (ImageNet first layer): excluded.
    assert!(!should_use_small_channel_conv(
        &[1, 3, 1, 224, 224],
        &[64, 3, 1, 7, 7],
        &ConvOptions::new([1, 2, 2], [0, 3, 3], [1, 1, 1], 1),
    ));
    // Non-groups=1 is excluded.
    assert!(!should_use_small_channel_conv(
        &[1, 4, 1, 8, 8],
        &[4, 1, 1, 3, 3],
        &ConvOptions::new([1, 1, 1], [0, 1, 1], [1, 1, 1], 4),
    ));

    // Cross-check c_in == 5 against the naive reference (this goes through
    // the general path, not the small-channel path).
    check_small_channel_conv2d_f32(1, 5, 4, 8, 8, 3, 3, [1, 1], [1, 1], [1, 1], false);
}

#[test]
fn test_conv2d_depthwise_oh_outer_k3x3() {
    // Depthwise path, oh-outer dispatch, 3x3 kernel, stride 1.
    // Plane = 96 * 96 = 9216 elements.
    check_depthwise_conv2d_f32(1, 2, 96, 96, 3, 3, [1, 1], [1, 1], [1, 1], false);
}

#[test]
fn test_conv2d_depthwise_oh_outer_k3x3_stride2() {
    // Depthwise, oh-outer, stride 2. Plane = 96*96 = 9216.
    check_depthwise_conv2d_f32(1, 2, 192, 192, 3, 3, [2, 2], [1, 1], [1, 1], false);
}

#[test]
fn test_conv2d_depthwise_oh_outer_k5x1() {
    // Depthwise, oh-outer, 5x1 asymmetric kernel. Plane = 97*97 = 9409.
    check_depthwise_conv2d_f32(1, 2, 97, 97, 5, 1, [1, 1], [2, 0], [1, 1], false);
}

#[test]
fn test_conv2d_depthwise_oh_outer_k1x5() {
    // Depthwise, oh-outer, 1x5 asymmetric kernel. Plane = 97*97 = 9409.
    check_depthwise_conv2d_f32(1, 2, 97, 97, 1, 5, [1, 1], [0, 2], [1, 1], false);
}

#[test]
fn test_conv2d_small_channel_oh_outer_k3x3() {
    // Small-channel path, oh-outer dispatch, stride 1. Plane = 96 * 96.
    check_small_channel_conv2d_f32(1, 3, 4, 96, 96, 3, 3, [1, 1], [1, 1], [1, 1], false);
}

#[test]
fn test_conv2d_small_channel_oh_outer_k3x3_stride2() {
    // Small-channel, oh-outer, stride 2. Plane = 96*96.
    check_small_channel_conv2d_f32(1, 3, 4, 192, 192, 3, 3, [2, 2], [1, 1], [1, 1], false);
}

#[test]
fn test_conv2d_small_channel_oh_outer_k5x1_sobel() {
    // Small-channel, oh-outer, 5x1 asymmetric kernel. Plane = 97*97 = 9409.
    check_small_channel_conv2d_f32(1, 3, 3, 97, 97, 5, 1, [1, 1], [2, 0], [1, 1], false);
}

#[test]
fn test_conv2d_small_channel_oh_outer_k1x5_sobel() {
    // Small-channel, oh-outer, 1x5 asymmetric kernel. Plane = 97*97.
    check_small_channel_conv2d_f32(1, 3, 3, 97, 97, 1, 5, [1, 1], [0, 2], [1, 1], false);
}

#[test]
fn test_conv2d_small_channel_oh_outer_with_bias_and_dilation() {
    // Small-channel, oh-outer, with bias and dilation > 1. Plane = 96*96.
    check_small_channel_conv2d_f32(1, 3, 8, 100, 100, 3, 3, [1, 1], [2, 2], [2, 2], true);
}

#[test]
fn test_conv2d_depthwise_predicate_triggers() {
    // Canonical depthwise 3x3, groups == c_in == c_out == 32.
    assert!(should_use_depthwise_conv(
        &[4, 32, 1, 56, 56],
        &[32, 1, 1, 3, 3],
        &ConvOptions::new([1, 1, 1], [0, 1, 1], [1, 1, 1], 32),
    ));
    // Canonical depthwise 7x7.
    assert!(should_use_depthwise_conv(
        &[4, 48, 1, 56, 56],
        &[48, 1, 1, 7, 7],
        &ConvOptions::new([1, 1, 1], [0, 3, 3], [1, 1, 1], 48),
    ));
    // Conv1d depthwise (kh == 1 via the conv1d -> conv3d expansion).
    assert!(should_use_depthwise_conv(
        &[8, 64, 1, 1, 1024],
        &[64, 1, 1, 1, 3],
        &ConvOptions::new([1, 1, 1], [0, 0, 1], [1, 1, 1], 64),
    ));
    // Strided + dilated depthwise.
    assert!(should_use_depthwise_conv(
        &[1, 16, 1, 32, 32],
        &[16, 1, 1, 3, 3],
        &ConvOptions::new([1, 2, 2], [0, 1, 1], [1, 2, 2], 16),
    ));

    // Not depthwise: groups == 1.
    assert!(!should_use_depthwise_conv(
        &[1, 8, 1, 16, 16],
        &[16, 8, 1, 3, 3],
        &ConvOptions::new([1, 1, 1], [0, 1, 1], [1, 1, 1], 1),
    ));
    // Not depthwise: channels_per_group > 1 (grouped but not depthwise).
    assert!(!should_use_depthwise_conv(
        &[1, 8, 1, 16, 16],
        &[8, 4, 1, 3, 3],
        &ConvOptions::new([1, 1, 1], [0, 1, 1], [1, 1, 1], 2),
    ));
    // Not depthwise: groups == c_in but c_out != c_in (depth multiplier > 1).
    assert!(!should_use_depthwise_conv(
        &[1, 8, 1, 16, 16],
        &[16, 1, 1, 3, 3],
        &ConvOptions::new([1, 1, 1], [0, 1, 1], [1, 1, 1], 8),
    ));
    // Not depthwise: pure 3D with kd > 1 (the `d`-axis restriction).
    assert!(!should_use_depthwise_conv(
        &[1, 8, 4, 16, 16],
        &[8, 1, 3, 3, 3],
        &ConvOptions::new([1, 1, 1], [1, 1, 1], [1, 1, 1], 8),
    ));
}

#[test]
fn test_valid_out_range_basics() {
    // 3x3, no pad, stride 1: every k position produces the full range.
    let (s, e) = valid_out_range(0, 1, 0, 1, 5, 3);
    assert_eq!((s, e), (0, 3));
    let (s, e) = valid_out_range(2, 1, 0, 1, 5, 3);
    assert_eq!((s, e), (0, 3));
    // 3x3, pad 1, stride 1: kernel position 0 needs o*1 + 0 >= 1 -> o >= 1.
    let (s, e) = valid_out_range(0, 1, 1, 1, 5, 5);
    assert_eq!((s, e), (1, 5));
    // kernel position 2 needs o*1 + 2 - 1 < 5 -> o < 4.
    let (s, e) = valid_out_range(2, 1, 1, 1, 5, 5);
    assert_eq!((s, e), (0, 4));
    // stride 2: o*2 + 0 in [0, in). With in=5, out=3: o in [0, 3).
    let (s, e) = valid_out_range(0, 1, 0, 2, 5, 3);
    assert_eq!((s, e), (0, 3));
    // dilation 2, pad 2, stride 1: kernel position 0 iw = o*1 + 0 - 2 -> o >= 2.
    let (s, e) = valid_out_range(0, 2, 2, 1, 5, 5);
    assert_eq!((s, e), (2, 5));
}

#[test]
fn valid_out_range_matches_bounds_check() {
    for k in 0..4usize {
        for dilation in 1..3usize {
            for pad in 0..3usize {
                for stride in 1..3usize {
                    let in_size = 6usize;
                    if dilation * k + 1 > in_size + 2 * pad {
                        continue;
                    }
                    let out_size = calculate_conv_output_size(k + 1, stride, pad, dilation, in_size);
                    let (s, e) = valid_out_range(k, dilation, pad, stride, in_size, out_size);
                    for o in 0..out_size {
                        let i = (o * stride + k * dilation) as isize - pad as isize;
                        let inside = i >= 0 && i < in_size as isize;
                        assert_eq!(s <= o && o < e, inside, "k={k} d={dilation} p={pad} s={stride} o={o}");
                    }
                }
            }
        }
    }
}

#[test]
fn calculate_conv_output_size_formula() {
    assert_eq!(calculate_conv_output_size(3, 1, 0, 1, 5), 3);
    assert_eq!(calculate_conv_output_size(3, 2, 1, 1, 5), 3);
    assert_eq!(calculate_conv_output_size(3, 1, 2, 2, 5), 5);
    assert_eq!(calculate_conv_output_size(1, 1, 0, 1, 7), 7);
}

#[test]
fn conv2d_grouped_goes_through_general_path() {
    // Two groups, two input and four output channels: not depthwise, not
    // small-channel (groups != 1), so the tiled patch-matrix path runs.
    let x_data = seeded_vec_f32(2 * 5 * 5, 7);
    let w_data = seeded_vec_f32(4 * 3 * 3, 8);
    let x = tensor(x_data.clone(), vec![1, 2, 5, 5], DType::F32);
    let weight = tensor(w_data.clone(), vec![4, 1, 3, 3], DType::F32);
    let options = ConvOptions::new([1, 1], [1, 1], [1, 1], 2);
    let result = run_conv2d_f32(x, weight, None, &options);
    assert_eq!(result.shape, vec![1, 4, 5, 5]);
    for co in 0..4 {
        let ci = co / 2;
        for oh in 0..5usize {
            for ow in 0..5usize {
                let mut expected = 0.0f32;
                for kh in 0..3usize {
                    for kw in 0..3usize {
                        let ih = oh as isize + kh as isize - 1;
                        let iw = ow as isize + kw as isize - 1;
                        if ih >= 0 && ih < 5 && iw >= 0 && iw < 5 {
                            expected += x_data[(ci * 5 + ih as usize) * 5 + iw as usize] * w_data[(co * 3 + kh) * 3 + kw];
                        }
                    }
                }
                let actual = result.data[(co * 5 + oh) * 5 + ow];
                assert!((actual - expected).abs() < 1e-4);
            }
        }
    }
}

#[test]
fn conv2d_pointwise_with_bias() {
    // A 1x1 kernel runs through the pointwise path.
    let x = tensor(vec![1.0f32, 2.0, 3.0, 4.0, 5.0, 6.0, 7.0, 8.0], vec![1, 2, 2, 2], DType::F32);
    let weight = tensor(vec![1.0f32, 10.0], vec![1, 2, 1, 1], DType::F32);
    let bias = tensor(vec![0.5f32], vec![1], DType::F32);
    let options = ConvOptions::new([1, 1], [0, 0], [1, 1], 1);
    let result = run_conv2d_f32(x, weight, Some(bias), &options);
    assert_eq!(result.shape, vec![1, 1, 2, 2]);
    assert_eq!(result.data, vec![51.5, 62.5, 73.5, 84.5]);
}
