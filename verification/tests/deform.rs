use rudnn::conv::deform::{deform_conv2d_f32, deform_conv2d_f64};
use rudnn::tensor::{DType, HostTensor};

/// Bilinear sample of an `[height, width]` plane at a fractional position.
fn bilinear(plane: &[f64], height: usize, width: usize, h: f64, w: f64) -> f64 {
    if h <= -1.0 || h >= height as f64 || w <= -1.0 || w >= width as f64 {
        return 0.0;
    }
    let h_low = h.floor();
    let w_low = w.floor();
    let h_high = (h_low + 1.0) as usize;
    let w_high = (w_low + 1.0) as usize;
    let v1 = if h_low >= 0.0 && w_low >= 0.0 { plane[(h_low as usize) * width + w_low as usize] } else { 0.0 };
    let v2 = if h_low >= 0.0 && w_high < width { plane[(h_low as usize) * width + w_high] } else { 0.0 };
    let v3 = if h_high < height && w_low >= 0.0 { plane[h_high * width + w_low as usize] } else { 0.0 };
    let v4 = if h_high < height && w_high < width { plane[h_high * width + w_high] } else { 0.0 };
    let lh = h - h_low;
    let lw = w - w_low;
    let hh = 1.0 - lh;
    let hw = 1.0 - lw;
    hh * hw * v1 + hh * lw * v2 + lh * hw * v3 + lh * lw * v4
}

#[allow(clippy::too_many_arguments)]
fn sample(plane: &[f64], height: usize, width: usize, pos_h: usize, pad_h: usize, pos_w: usize, pad_w: usize, off_h: f64, off_w: f64) -> f64 {
    let h = pos_h as f64 - pad_h as f64 + off_h;
    let w = pos_w as f64 - pad_w as f64 + off_w;
    bilinear(plane, height, width, h, w)
}

fn gemm_nn(a: &[f64], b: &[f64], m: usize, k: usize, n: usize) -> Vec<f64> {
    let mut c = vec![0.0; m * n];
    for i in 0..m {
        for j in 0..n {
            let mut acc = 0.0;
            for r in 0..k {
                acc += a[i * k + r] * b[r * n + j];
            }
            c[i * n + j] = acc;
        }
    }
    c
}

fn t(data: Vec<f64>, shape: &[usize]) -> HostTensor<f64> {
    HostTensor::new(data, shape.to_vec(), DType::F64)
}

#[allow(clippy::too_many_arguments)]
fn deform(
    x: HostTensor<f64>,
    offset: HostTensor<f64>,
    weight: HostTensor<f64>,
    mask: Option<HostTensor<f64>>,
    bias: Option<HostTensor<f64>>,
    stride: [usize; 2],
    padding: [usize; 2],
    dilation: [usize; 2],
    wg: usize,
    og: usize,
) -> HostTensor<f64> {
    deform_conv2d_f64(x, offset, weight, mask, bias, stride, padding, dilation, wg, og, &sample, &|a: f64, b: f64| a * b, &|a: f64, b: f64| a + b, &gemm_nn)
}

/// Plain cross-correlation, for comparison.
#[allow(clippy::too_many_arguments)]
fn conv_ref(x: &[f64], xs: [usize; 4], w: &[f64], ws: [usize; 4], stride: usize, pad: usize, out: [usize; 2]) -> Vec<f64> {
    let [b_n, c_in, h, wd] = xs;
    let [c_out, _, kh, kw] = ws;
    let mut r = vec![0.0; b_n * c_out * out[0] * out[1]];
    for b in 0..b_n {
        for oc in 0..c_out {
            for oh in 0..out[0] {
                for ow in 0..out[1] {
                    let mut acc = 0.0;
                    for ic in 0..c_in {
                        for i in 0..kh {
                            for j in 0..kw {
                                let ih = (oh * stride + i) as isize - pad as isize;
                                let iw = (ow * stride + j) as isize - pad as isize;
                                if ih >= 0 && iw >= 0 && (ih as usize) < h && (iw as usize) < wd {
                                    acc += x[((b * c_in + ic) * h + ih as usize) * wd + iw as usize] * w[((oc * c_in + ic) * kh + i) * kw + j];
                                }
                            }
                        }
                    }
                    r[((b * c_out + oc) * out[0] + oh) * out[1] + ow] = acc;
                }
            }
        }
    }
    r
}

#[test]
fn deform_with_zero_offsets_is_plain_convolution() {
    let xs = [2, 3, 5, 4];
    let ws = [2, 3, 3, 3];
    let x: Vec<f64> = (0..120).map(|i| ((i * 7) % 13) as f64 - 6.0).collect();
    let w: Vec<f64> = (0..54).map(|i| ((i * 5) % 11) as f64 * 0.1 - 0.5).collect();
    let out = [5, 4];
    let offset = vec![0.0; 2 * 18 * 20];
    let r = deform(t(x.clone(), &xs), t(offset, &[2, 18, 5, 4]), t(w.clone(), &ws), None, None, [1, 1], [1, 1], [1, 1], 1, 1);
    assert_eq!(r.shape, vec![2, 2, 5, 4]);
    assert_eq!(r.dtype, DType::F64);
    let want = conv_ref(&x, xs, &w, ws, 1, 1, out);
    for (a, b) in r.data.iter().zip(want.iter()) {
        assert!((a - b).abs() < 1e-9, "{a} vs {b}");
    }
}

#[test]
fn deform_half_pixel_offset_averages_neighbours() {
    // 1x1 kernel, offset (0, 0.5): every output is the mean of two horizontal neighbours.
    let x = t(vec![1.0, 3.0, 5.0, 7.0], &[1, 1, 1, 4]);
    let w = t(vec![1.0], &[1, 1, 1, 1]);
    let mut off = vec![0.0; 2 * 4];
    for s in 0..4 {
        off[4 + s] = 0.5;
    }
    let r = deform(x, t(off, &[1, 2, 1, 4]), w, None, None, [1, 1], [0, 0], [1, 1], 1, 1);
    assert_eq!(r.data, vec![2.0, 4.0, 6.0, 3.5]);
}

#[test]
fn deform_mask_and_bias() {
    let x = t(vec![1.0, 2.0, 3.0, 4.0], &[1, 1, 2, 2]);
    let w = t(vec![2.0], &[1, 1, 1, 1]);
    let off = t(vec![0.0; 8], &[1, 2, 2, 2]);
    let mask = t(vec![1.0, 0.5, 0.0, 2.0], &[1, 1, 2, 2]);
    let bias = t(vec![10.0], &[1]);
    let r = deform(x, off, w, Some(mask), Some(bias), [1, 1], [0, 0], [1, 1], 1, 1);
    assert_eq!(r.data, vec![12.0, 12.0, 10.0, 26.0]);
}

#[test]
fn deform_weight_groups_keep_channels_apart() {
    // Two groups of one channel each; each output channel sees only its group's input.
    let x = t(vec![1.0, 2.0, 10.0, 20.0], &[1, 2, 1, 2]);
    let w = t(vec![1.0, 3.0], &[2, 1, 1, 1]);
    let off = t(vec![0.0; 8], &[1, 4, 1, 2]);
    let r = deform(x, off, w, None, None, [1, 1], [0, 0], [1, 1], 2, 2);
    assert_eq!(r.data, vec![1.0, 2.0, 30.0, 60.0]);
}

#[test]
fn deform_f32_tags_result() {
    let x = HostTensor::new(vec![1.0f32, 2.0], vec![1, 1, 1, 2], DType::F32);
    let w = HostTensor::new(vec![1.0f32], vec![1, 1, 1, 1], DType::F32);
    let off = HostTensor::new(vec![0.0f32; 4], vec![1, 2, 1, 2], DType::F32);
    let sample32 = |p: &[f32], h: usize, w: usize, ph: usize, pp: usize, pw: usize, pq: usize, oh: f32, ow: f32| -> f32 {
        let plane: Vec<f64> = p.iter().map(|&v| v as f64).collect();
        sample(&plane, h, w, ph, pp, pw, pq, oh as f64, ow as f64) as f32
    };
    let gemm32 = |a: &[f32], b: &[f32], m: usize, k: usize, n: usize| -> Vec<f32> {
        let a64: Vec<f64> = a.iter().map(|&v| v as f64).collect();
        let b64: Vec<f64> = b.iter().map(|&v| v as f64).collect();
        gemm_nn(&a64, &b64, m, k, n).into_iter().map(|v| v as f32).collect()
    };
    let r = deform_conv2d_f32(x, off, w, None, None, [1, 1], [0, 0], [1, 1], 1, 1, &sample32, &|a: f32, b: f32| a * b, &|a: f32, b: f32| a + b, &gemm32);
    assert_eq!(r.dtype, DType::F32);
    assert_eq!(r.data, vec![1.0, 2.0]);
}

use rudnn::conv::deform_backward::deform_conv2d_backward;

/// Corner and offset contributions of a bilinear sample's gradient.
#[allow(clippy::too_many_arguments)]
fn sample_backward(
    plane: &[f64],
    height: usize,
    width: usize,
    pos_h: usize,
    pad_h: usize,
    pos_w: usize,
    pad_w: usize,
    off_h: f64,
    off_w: f64,
    grad_val: f64,
) -> (Vec<(usize, f64)>, Option<(f64, f64)>) {
    let h = pos_h as f64 - pad_h as f64 + off_h;
    let w = pos_w as f64 - pad_w as f64 + off_w;
    if h <= -1.0 || h >= height as f64 || w <= -1.0 || w >= width as f64 {
        return (vec![], None);
    }
    let h_low = h.floor();
    let w_low = w.floor();
    let h_high = h_low + 1.0;
    let w_high = w_low + 1.0;
    let lh = h - h_low;
    let lw = w - w_low;
    let hh = 1.0 - lh;
    let hw = 1.0 - lw;
    let at = |y: f64, x: f64| (y as usize) * width + x as usize;
    let ok_low_h = h_low >= 0.0;
    let ok_low_w = w_low >= 0.0;
    let ok_high_h = (h_high as usize) < height;
    let ok_high_w = (w_high as usize) < width;
    let v1 = if ok_low_h && ok_low_w { plane[at(h_low, w_low)] } else { 0.0 };
    let v2 = if ok_low_h && ok_high_w { plane[at(h_low, w_high)] } else { 0.0 };
    let v3 = if ok_high_h && ok_low_w { plane[at(h_high, w_low)] } else { 0.0 };
    let v4 = if ok_high_h && ok_high_w { plane[at(h_high, w_high)] } else { 0.0 };
    let mut corners = Vec::new();
    if ok_low_h && ok_low_w {
        corners.push((at(h_low, w_low), hh * hw * grad_val));
    }
    if ok_low_h && ok_high_w {
        corners.push((at(h_low, w_high), hh * lw * grad_val));
    }
    if ok_high_h && ok_low_w {
        corners.push((at(h_high, w_low), lh * hw * grad_val));
    }
    if ok_high_h && ok_high_w {
        corners.push((at(h_high, w_high), lh * lw * grad_val));
    }
    let grad_h = hw * (v3 - v1) + lw * (v4 - v2);
    let grad_w = hh * (v2 - v1) + lh * (v4 - v3);
    (corners, Some((grad_val * grad_h, grad_val * grad_w)))
}

#[allow(clippy::type_complexity)]
fn backward(
    x: HostTensor<f64>,
    offset: HostTensor<f64>,
    weight: HostTensor<f64>,
    mask: Option<HostTensor<f64>>,
    bias: Option<HostTensor<f64>>,
    og: HostTensor<f64>,
    padding: [usize; 2],
) -> (HostTensor<f64>, HostTensor<f64>, HostTensor<f64>, Option<HostTensor<f64>>, Option<HostTensor<f64>>) {
    deform_conv2d_backward(
        x,
        offset,
        weight,
        mask,
        bias,
        og,
        [1, 1],
        padding,
        [1, 1],
        1,
        1,
        0.0,
        1.0,
        &sample,
        &sample_backward,
        &|a: f64, b: f64| a * b,
        &|a: f64, b: f64| a + b,
        DType::F64,
    )
}

#[test]
fn deform_backward_single_tap() {
    // One input channel, 1x1 kernel, 1x3 input, fractional offset 0.25 to the right.
    let x = t(vec![1.0, 2.0, 4.0], &[1, 1, 1, 3]);
    let w = t(vec![3.0], &[1, 1, 1, 1]);
    let off = t(vec![0.0, 0.0, 0.0, 0.25, 0.25, 0.25], &[1, 2, 1, 3]);
    let og = t(vec![1.0, 1.0, 1.0], &[1, 1, 1, 3]);
    let bias = t(vec![0.0], &[1]);
    let (xg, offg, wg, mg, bg) = backward(x, off, w, None, Some(bias), og, [0, 0]);
    // Samples: 1.25, 2.5, 3.0 (the last corner is outside); weight grad is their sum.
    assert_eq!(wg.data, vec![1.25 + 2.5 + 3.0]);
    assert_eq!(bg.unwrap().data, vec![3.0]);
    assert!(mg.is_none());
    // Each sample spreads 3 * (0.75, 0.25) to its two corners.
    assert_eq!(xg.data, vec![2.25, 0.75 + 2.25, 0.75 + 2.25]);
    // Height offset gradients see the missing row below (zeros); width ones 3 * (v2 - v1).
    assert_eq!(offg.data, vec![-3.75, -7.5, -9.0, 3.0, 6.0, -12.0]);
    assert_eq!(xg.shape, vec![1, 1, 1, 3]);
}

#[test]
fn deform_backward_mask_gradient() {
    let x = t(vec![1.0, 2.0, 3.0, 4.0], &[1, 1, 2, 2]);
    let w = t(vec![2.0], &[1, 1, 1, 1]);
    let off = t(vec![0.0; 8], &[1, 2, 2, 2]);
    let mask = t(vec![1.0, 0.5, 0.0, 2.0], &[1, 1, 2, 2]);
    let og = t(vec![1.0, 1.0, 1.0, 1.0], &[1, 1, 2, 2]);
    let (xg, _offg, wg, mg, bg) = backward(x, off, w, Some(mask), None, og, [0, 0]);
    assert!(bg.is_none());
    // Mask gradient: grad_out * weight * sample.
    assert_eq!(mg.unwrap().data, vec![2.0, 4.0, 6.0, 8.0]);
    // Weight gradient: sum of grad_out * mask * sample.
    assert_eq!(wg.data, vec![1.0 + 1.0 + 0.0 + 8.0]);
    // Input gradient: grad_out * mask * weight at each (integer) position.
    assert_eq!(xg.data, vec![2.0, 1.0, 0.0, 4.0]);
}
