use half::{bf16, f16};
use rudnn::pool::adaptive::{adaptive_avg_pool1d_f32, adaptive_avg_pool2d_f32, adaptive_avg_pool2d_f64};
use rudnn::pool::average::{avg_pool1d_f32, avg_pool2d_f32, avg_pool2d_f64};
use rudnn::pool::backward::{
    adaptive_avg_pool2d_backward_f32, adaptive_avg_pool2d_backward_f64, avg_pool2d_backward_f32, avg_pool2d_backward_f64,
    max_pool2d_backward_f32,
};
use rudnn::pool::max::{
    max_pool1d_f32, max_pool1d_with_indices_f32, max_pool2d_bf16, max_pool2d_f16, max_pool2d_f64, max_pool2d_with_indices_f32,
    max_pool3d_f32, max_pool3d_with_indices_bf16, max_pool3d_with_indices_f32,
};
use rudnn::pool::pool_output_size;
use rudnn::tensor::{DType, HostTensor};

fn add_f32(a: f32, b: f32) -> f32 {
    a + b
}

fn div_f32(a: f32, n: usize) -> f32 {
    a / n as f32
}

fn tensor<T>(data: Vec<T>, shape: Vec<usize>, dtype: DType) -> HostTensor<T> {
    HostTensor::new(data, shape, dtype)
}

#[test]
fn test_pool_output_size() {
    // Basic: input=4, kernel=2, padding=0, stride=2, dilation=1
    // output = (4 + 0 - 2) / 2 + 1 = 2
    assert_eq!(pool_output_size(4, 2, 0, 2, 1, false), 2);

    // With padding: input=4, kernel=2, padding=1, stride=2
    // output = (4 + 2 - 2) / 2 + 1 = 3
    assert_eq!(pool_output_size(4, 2, 1, 2, 1, false), 3);

    // With ceil mode: input=5, kernel=2, padding=0, stride=2
    // floor: (5 - 2) / 2 + 1 = 2
    // ceil: ceil(3/2) + 1 = 3
    assert_eq!(pool_output_size(5, 2, 0, 2, 1, false), 2);
    assert_eq!(pool_output_size(5, 2, 0, 2, 1, true), 3);

    // With dilation: input=7, kernel=2, dilation=2
    // effective_kernel = 2*(2-1)+1 = 3
    // output = (7 - 3) / 1 + 1 = 5
    assert_eq!(pool_output_size(7, 2, 0, 1, 2, false), 5);
}

#[test]
fn test_avg_pool2d_count_include_pad() {
    // 3x3 input with padding 1, kernel 2x2, stride 2
    let x_data = vec![1.0f32, 2.0, 3.0, 4.0, 5.0, 6.0, 7.0, 8.0, 9.0];
    let x = tensor(x_data.clone(), vec![1, 1, 3, 3], DType::F32);
    let x2 = tensor(x_data, vec![1, 1, 3, 3], DType::F32);

    // count_include_pad = true: divide by kernel size (4)
    let result_include = avg_pool2d_f32(x, [2, 2], [2, 2], [1, 1], true, false, 0.0f32, &add_f32, &div_f32);
    let out_include = result_include.data;

    // count_include_pad = false: divide by actual count
    let result_exclude = avg_pool2d_f32(x2, [2, 2], [2, 2], [1, 1], false, false, 0.0f32, &add_f32, &div_f32);
    let out_exclude = result_exclude.data;

    // Corner position with padding: only 1 valid element
    // With count_include_pad: 1.0 / 4 = 0.25
    // Without: 1.0 / 1 = 1.0
    assert!((out_include[0] - 0.25).abs() < 1e-5);
    assert!((out_exclude[0] - 1.0).abs() < 1e-5);
}

#[test]
fn test_max_pool2d_f64() {
    let x_data: Vec<f64> = (1..=16).map(|x| x as f64).collect();
    let x = tensor(x_data, vec![1, 1, 4, 4], DType::F64);

    let result = max_pool2d_f64(x, [2, 2], [2, 2], [0, 0], [1, 1], false, f64::NEG_INFINITY, &|a: f64, b: f64| a > b);
    assert_eq!(result.data, vec![6.0, 8.0, 14.0, 16.0]);
    assert_eq!(result.dtype, DType::F64);
}

#[test]
fn test_max_pool2d_f16() {
    let x_data: Vec<f16> = (1..=16).map(|x| f16::from_f32(x as f32)).collect();
    let x = tensor(x_data, vec![1, 1, 4, 4], DType::F16);

    let result = max_pool2d_f16(x, [2, 2], [2, 2], [0, 0], [1, 1], false, f16::NEG_INFINITY, &|a: f16, b: f16| a > b);
    let out = result.data;

    assert!((out[0].to_f32() - 6.0).abs() < 0.1);
    assert!((out[1].to_f32() - 8.0).abs() < 0.1);
    assert!((out[2].to_f32() - 14.0).abs() < 0.1);
    assert!((out[3].to_f32() - 16.0).abs() < 0.1);
}

#[test]
fn test_max_pool2d_bf16() {
    let x_data: Vec<bf16> = (1..=16).map(|x| bf16::from_f32(x as f32)).collect();
    let x = tensor(x_data, vec![1, 1, 4, 4], DType::BF16);

    let result = max_pool2d_bf16(
        x,
        [2, 2],
        [2, 2],
        [0, 0],
        [1, 1],
        false,
        f32::NEG_INFINITY,
        &|a: f32, b: f32| a > b,
        &|v: bf16| v.to_f32(),
        &bf16::from_f32,
    );
    let out = result.data;

    assert!((out[0].to_f32() - 6.0).abs() < 0.5);
    assert!((out[1].to_f32() - 8.0).abs() < 0.5);
    assert_eq!(result.dtype, DType::BF16);
}

#[test]
fn test_max_pool_backward() {
    // Forward pass
    let x_data: Vec<f32> = (1..=16).map(|x| x as f32).collect();
    let x = tensor(x_data.clone(), vec![1, 1, 4, 4], DType::F32);
    let (_output, indices) =
        max_pool2d_with_indices_f32(x, [2, 2], [2, 2], [0, 0], [1, 1], false, f32::NEG_INFINITY, &|a: f32, b: f32| a > b);

    // Backward pass: gradient of 1.0 for each output
    let grad = tensor(vec![1.0f32; 4], vec![1, 1, 2, 2], DType::F32);

    let x2 = tensor(x_data, vec![1, 1, 4, 4], DType::F32);
    let x_grad = max_pool2d_backward_f32(x2, grad, indices, 0.0f32, &add_f32);
    let grad_data = x_grad.data;

    // Gradient should be 1.0 at max positions, 0.0 elsewhere
    // Max positions were: 5, 7, 13, 15 (0-indexed)
    assert_eq!(grad_data[5], 1.0);
    assert_eq!(grad_data[7], 1.0);
    assert_eq!(grad_data[13], 1.0);
    assert_eq!(grad_data[15], 1.0);
    assert_eq!(grad_data[0], 0.0);
}

#[test]
fn test_avg_pool_backward() {
    let x_data: Vec<f32> = (1..=16).map(|x| x as f32).collect();
    let x = tensor(x_data, vec![1, 1, 4, 4], DType::F32);

    // Backward with gradient of 4.0 for each output (will distribute as 1.0 each)
    let grad = tensor(vec![4.0f32; 4], vec![1, 1, 2, 2], DType::F32);

    let x_grad = avg_pool2d_backward_f32(x, grad, [2, 2], [2, 2], [0, 0], false, 0.0f32, &add_f32, &div_f32);
    let grad_data = x_grad.data;

    // Each position in input should receive grad/4 = 1.0
    assert!(grad_data.iter().all(|&v| (v - 1.0).abs() < 1e-5));
}

#[test]
fn test_adaptive_avg_pool_backward() {
    let x_data: Vec<f32> = (1..=16).map(|x| x as f32).collect();
    let x = tensor(x_data, vec![1, 1, 4, 4], DType::F32);

    // Backward with gradient of 4.0 for each output element
    let grad = tensor(vec![4.0f32; 4], vec![1, 1, 2, 2], DType::F32);
    let x_grad = adaptive_avg_pool2d_backward_f32(x, grad, 0.0f32, &add_f32, &div_f32);
    let grad_data = x_grad.data;

    // Each input position receives gradient from its output region
    assert!(grad_data.iter().all(|&v| (v - 1.0).abs() < 1e-5));
}

#[test]
fn adaptive_avg_pool2d_averages_each_region() {
    let x_data: Vec<f32> = (1..=16).map(|x| x as f32).collect();
    let x = tensor(x_data, vec![1, 1, 4, 4], DType::F32);
    let out = adaptive_avg_pool2d_f32(x, [2, 2], 0.0f32, &add_f32, &div_f32);
    assert_eq!(out.shape, vec![1, 1, 2, 2]);
    assert_eq!(out.data, vec![3.5, 5.5, 11.5, 13.5]);
}

#[test]
fn pool_output_size_ceil_mode_adds_one_window_at_most() {
    for input in 1..20usize {
        for stride in 1..5usize {
            let floor = pool_output_size(input, 2, 0, stride, 1, false);
            let ceil = pool_output_size(input, 2, 0, stride, 1, true);
            assert!(floor <= ceil && ceil <= floor + 1);
        }
    }
}

#[test]
fn one_dimensional_pools_work_along_the_last_axis() {
    let x = || tensor(vec![1.0f32, 5.0, 2.0, 4.0, 3.0, 0.0], vec![1, 1, 6], DType::F32);
    let gt = |a: f32, b: f32| a > b;

    let m = max_pool1d_f32(x(), 2, 2, 0, 1, false, f32::NEG_INFINITY, &gt);
    assert_eq!(m.shape, vec![1, 1, 3]);
    assert_eq!(m.data, vec![5.0, 4.0, 3.0]);

    let (m, idx) = max_pool1d_with_indices_f32(x(), 3, 3, 0, 1, false, f32::NEG_INFINITY, &gt);
    assert_eq!(m.data, vec![5.0, 4.0]);
    assert_eq!(idx.data, vec![1, 3]);

    let a = avg_pool1d_f32(x(), 3, 3, 0, true, false, 0.0f32, &add_f32, &div_f32);
    assert_eq!(a.data, vec![8.0 / 3.0, 7.0 / 3.0]);

    let ad = adaptive_avg_pool1d_f32(x(), 4, 0.0f32, &add_f32, &div_f32);
    assert_eq!(ad.shape, vec![1, 1, 4]);
    // Windows [0, 2), [1, 3), [3, 5), [4, 6).
    assert_eq!(ad.data, vec![3.0, 3.5, 3.5, 1.5]);
}

#[test]
fn max_pool3d_takes_the_maximum_of_each_box() {
    let data: Vec<f32> = (0..8).map(|v| ((v * 5) % 8) as f32).collect();
    let x = tensor(data, vec![1, 1, 2, 2, 2], DType::F32);
    let r = max_pool3d_f32(x, [2, 2, 2], [2, 2, 2], [0, 0, 0], [1, 1, 1], false, f32::NEG_INFINITY, &|a: f32, b: f32| a > b);
    assert_eq!(r.shape, vec![1, 1, 1, 1, 1]);
    assert_eq!(r.data, vec![7.0]);
}

fn add_f64(a: f64, b: f64) -> f64 {
    a + b
}

fn div_f64(a: f64, n: usize) -> f64 {
    a / n as f64
}

#[test]
fn bf16_max_pool_agrees_with_widened_f32_pool() {
    let vals: Vec<f32> = (0..54).map(|i| ((i * 37 % 23) as f32 - 11.0) * 0.5).collect();
    let x16: Vec<bf16> = vals.iter().map(|&v| bf16::from_f32(v)).collect();
    let widened: Vec<f32> = x16.iter().map(|v| v.to_f32()).collect();
    let gt = |a: f32, b: f32| a > b;
    let args = ([2usize, 2, 2], [1usize, 2, 2], [0usize, 1, 1], [1usize, 1, 1]);
    let (o16, i16) = max_pool3d_with_indices_bf16(
        tensor(x16, vec![1, 2, 3, 3, 3], DType::BF16), args.0, args.1, args.2, args.3, false, f32::NEG_INFINITY, &gt,
        &|v: bf16| v.to_f32(), &|v: f32| bf16::from_f32(v),
    );
    let (o32, i32) = max_pool3d_with_indices_f32(
        tensor(widened, vec![1, 2, 3, 3, 3], DType::F32), args.0, args.1, args.2, args.3, false, f32::NEG_INFINITY, &gt,
    );
    assert_eq!(i16.data, i32.data);
    assert_eq!(o16.data, o32.data.iter().map(|&v| bf16::from_f32(v)).collect::<Vec<_>>());
}

#[test]
fn adaptive_pool_equals_avg_pool_when_output_divides_input() {
    let data: Vec<f32> = (0..2 * 6 * 8).map(|i| (i % 11) as f32 * 0.25).collect();
    let a = adaptive_avg_pool2d_f32(tensor(data.clone(), vec![1, 2, 6, 8], DType::F32), [3, 2], 0.0f32, &add_f32, &div_f32);
    let b = avg_pool2d_f32(tensor(data, vec![1, 2, 6, 8], DType::F32), [2, 4], [2, 4], [0, 0], false, false, 0.0f32, &add_f32, &div_f32);
    assert_eq!(a.shape, b.shape);
    assert_eq!(a.data, b.data);
}

#[test]
fn avg_pool_backward_is_the_adjoint_of_the_forward() {
    let y: Vec<f64> = (0..2 * 5 * 6).map(|i| ((i * 7) % 13) as f64 - 6.0).collect();
    for cip in [true, false] {
        let fwd = avg_pool2d_f64(tensor(y.clone(), vec![1, 2, 5, 6], DType::F64), [3, 2], [2, 2], [1, 1], cip, false, 0.0, &add_f64, &div_f64);
        let g: Vec<f64> = (0..fwd.data.len()).map(|i| (i as f64 * 0.3).sin()).collect();
        let bwd = avg_pool2d_backward_f64(
            tensor(vec![0.0; 60], vec![1, 2, 5, 6], DType::F64), tensor(g.clone(), fwd.shape.clone(), DType::F64),
            [3, 2], [2, 2], [1, 1], cip, 0.0, &add_f64, &div_f64,
        );
        assert_eq!(bwd.shape, vec![1, 2, 5, 6]);
        let lhs: f64 = fwd.data.iter().zip(&g).map(|(a, b)| a * b).sum();
        let rhs: f64 = y.iter().zip(&bwd.data).map(|(a, b)| a * b).sum();
        assert!((lhs - rhs).abs() < 1e-9, "cip {cip}: {lhs} vs {rhs}");
    }
}

#[test]
fn adaptive_backward_is_the_adjoint_and_keeps_plane_sums() {
    let y: Vec<f64> = (0..2 * 5 * 7).map(|i| ((i * 5) % 11) as f64 - 4.0).collect();
    let fwd = adaptive_avg_pool2d_f64(tensor(y.clone(), vec![1, 2, 5, 7], DType::F64), [3, 4], 0.0, &add_f64, &div_f64);
    let g: Vec<f64> = (0..24).map(|i| (i as f64 * 0.7).cos()).collect();
    let bwd = adaptive_avg_pool2d_backward_f64(
        tensor(vec![0.0; 70], vec![1, 2, 5, 7], DType::F64), tensor(g.clone(), vec![1, 2, 3, 4], DType::F64),
        0.0, &add_f64, &div_f64,
    );
    let lhs: f64 = fwd.data.iter().zip(&g).map(|(a, b)| a * b).sum();
    let rhs: f64 = y.iter().zip(&bwd.data).map(|(a, b)| a * b).sum();
    assert!((lhs - rhs).abs() < 1e-9);
    for plane in 0..2 {
        let gs: f64 = g[plane * 12..(plane + 1) * 12].iter().sum();
        let bs: f64 = bwd.data[plane * 35..(plane + 1) * 35].iter().sum();
        assert!((gs - bs).abs() < 1e-9);
    }
}

#[test]
fn avg_backward_divides_a_short_ceil_window_as_the_forward_did() {
    let x = || tensor(vec![1.0f32, 2.0, 3.0], vec![1, 1, 1, 3], DType::F32);
    let fwd = avg_pool2d_f32(x(), [1, 2], [1, 2], [0, 0], true, true, 0.0f32, &add_f32, &div_f32);
    assert_eq!(fwd.data, vec![1.5, 3.0]);
    let grad = tensor(vec![1.0f32, 1.0], fwd.shape.clone(), DType::F32);
    let bwd = avg_pool2d_backward_f32(x(), grad, [1, 2], [1, 2], [0, 0], true, 0.0f32, &add_f32, &div_f32);
    assert_eq!(bwd.data, vec![0.5, 0.5, 1.0]);
}
