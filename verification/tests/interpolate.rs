use rudnn::interpolate::{
    axis_taps, cubic_axis_taps, interpolate_bicubic_backward_impl, interpolate_bilinear_backward_impl,
    interpolate_lanczos3_backward_impl, interpolate_nearest_backward_impl, linear_axis_taps, separable_scatter,
    TapGeom,
};
use rudnn::tensor::{DType, HostTensor};

fn make_input_f32(batch: usize, channels: usize, height: usize, width: usize) -> HostTensor<f32> {
    let numel = batch * channels * height * width;
    let data: Vec<f32> = (0..numel).map(|i| i as f32).collect();
    HostTensor::new(data, vec![batch, channels, height, width], DType::F32)
}

fn add(a: f32, b: f32) -> f32 {
    a + b
}

#[test]
fn test_nearest_backward() {
    let x = make_input_f32(1, 1, 2, 2);
    let grad = HostTensor::new(vec![1.0f32; 16], vec![1, 1, 4, 4], DType::F32);
    // Upsampling 2 -> 4 reads source index o / 2 along each axis.
    let map = [0usize, 0, 1, 1];

    let result = interpolate_nearest_backward_impl(&x, &grad, [4, 4], &map, &map, 0.0f32, &add);
    let output = &result.data;

    assert_eq!(output.len(), 4);
    assert!((output[0] - 4.0).abs() < 1e-5);
}

#[test]
fn nearest_backward_routes_each_gradient_to_its_source() {
    let x = make_input_f32(1, 2, 2, 3);
    let grad = HostTensor::new((1..=8).map(|v| v as f32).collect(), vec![1, 2, 2, 2], DType::F32);
    let y_map = [1usize, 0];
    let x_map = [2usize, 2];
    let r = interpolate_nearest_backward_impl(&x, &grad, [2, 2], &y_map, &x_map, 0.0f32, &add);
    assert_eq!(r.shape, vec![1, 2, 2, 3]);
    assert_eq!(r.dtype, DType::F32);
    // Plane 0: row 0 of the output lands on input row 1, column 2; row 1 on row 0.
    assert_eq!(r.data[0..6].to_vec(), vec![0.0, 0.0, 7.0, 0.0, 0.0, 3.0]);
    assert_eq!(r.data[6..12].to_vec(), vec![0.0, 0.0, 15.0, 0.0, 0.0, 11.0]);
}

#[test]
fn bilinear_backward_spreads_ones_evenly() {
    // 2 -> 3 with aligned corners: output rows sit at 0, 0.5 and 1.
    let x = make_input_f32(1, 1, 2, 2);
    let grad = HostTensor::new(vec![1.0f32; 9], vec![1, 1, 3, 3], DType::F32);
    let coords = [(0usize, 0.0f32), (0, 0.5), (1, 0.0)];
    let weigh = |g: f32, _oh: usize, _ow: usize, wy: (f32, bool), wx: (f32, bool)| {
        let fy = if wy.1 { wy.0 } else { 1.0 - wy.0 };
        let fx = if wx.1 { wx.0 } else { 1.0 - wx.0 };
        g * fx * fy
    };
    let r = interpolate_bilinear_backward_impl(&x, &grad, [3, 3], &coords, &coords, 0.0f32, &weigh, &add);
    assert_eq!(r.shape, vec![1, 1, 2, 2]);
    for v in &r.data {
        assert!((v - 2.25).abs() < 1e-6);
    }
    let total: f32 = r.data.iter().sum();
    assert!((total - 9.0).abs() < 1e-5);
}

#[test]
fn linear_taps_clamp_the_upper_neighbour() {
    let taps = linear_axis_taps(&[(0usize, 0.25f32), (2, 0.5)], 3);
    assert_eq!(taps, vec![Some((0, (0.25, false))), Some((1, (0.25, true))), Some((2, (0.5, false))), Some((2, (0.5, true)))]);
}

#[test]
fn cubic_taps_clamp_to_the_input() {
    let taps = cubic_axis_taps(&[0isize, 3], &[1u8, 2, 3, 4, 5, 6, 7, 8], 4);
    assert_eq!(
        taps,
        vec![Some((0, 1)), Some((0, 2)), Some((1, 3)), Some((2, 4)), Some((2, 5)), Some((3, 6)), Some((3, 7)), Some((3, 8))]
    );
}

#[test]
fn window_taps_drop_outside_indices() {
    let taps = axis_taps(&[0isize], &[1u8, 2, 3, 4, 5, 6], 3);
    assert_eq!(taps, vec![None, None, Some((0, 3)), Some((1, 4)), Some((2, 5)), None]);
    let far = axis_taps(&[isize::MAX], &[1u8, 2, 3, 4, 5, 6], 3);
    assert!(far.iter().all(|t| t.is_none()));
}

#[test]
fn bicubic_backward_accumulates_clamped_taps() {
    let x = make_input_f32(1, 1, 1, 3);
    let grad = HostTensor::new(vec![1.0f32], vec![1, 1, 1, 1], DType::F32);
    let weigh = |g: f32, _oh: usize, _ow: usize, wy: f32, wx: f32| wx * wy * g;
    let r = interpolate_bicubic_backward_impl(
        &x,
        &grad,
        [1, 1],
        &[0isize],
        &[1.0f32, 1.0, 1.0, 1.0],
        &[0isize],
        &[0.1f32, 0.2, 0.3, 0.4],
        0.0f32,
        &weigh,
        &add,
    );
    // Columns -1 and 0 both land on column 0; every row tap lands on row 0.
    assert!((r.data[0] - 1.2).abs() < 1e-5);
    assert!((r.data[1] - 1.2).abs() < 1e-5);
    assert!((r.data[2] - 1.6).abs() < 1e-5);
}

#[test]
fn lanczos3_backward_skips_taps_outside_the_input() {
    let x = make_input_f32(1, 1, 1, 4);
    let grad = HostTensor::new(vec![1.0f32], vec![1, 1, 1, 1], DType::F32);
    let weigh = |g: f32, _oh: usize, _ow: usize, wy: f32, wx: f32| g * wy * wx;
    let r = interpolate_lanczos3_backward_impl(
        &x,
        &grad,
        [1, 1],
        &[0isize],
        &[1.0f32; 6],
        &[1isize],
        &[1.0f32, 2.0, 3.0, 4.0, 5.0, 6.0],
        0.0f32,
        &weigh,
        &add,
    );
    assert_eq!(r.data, vec![2.0, 3.0, 4.0, 5.0]);
}

#[test]
fn separable_scatter_passes_output_coordinates() {
    let geo = TapGeom { planes: 2, in_h: 1, in_w: 1, out_h: 2, out_w: 3, ky: 1, kx: 1 };
    let grad = vec![1i64; 12];
    let taps_y = vec![Some((0usize, ())); 2];
    let taps_x = vec![Some((0usize, ())); 3];
    let weigh = |g: i64, oh: usize, ow: usize, _a: (), _b: ()| g * (10 * oh as i64 + ow as i64);
    let r = separable_scatter(geo, &grad, &taps_y, &taps_x, 0i64, &weigh, &|a: i64, b: i64| a + b);
    // Each plane sums 0 + 1 + 2 + 10 + 11 + 12.
    assert_eq!(r, vec![36, 36]);
}
