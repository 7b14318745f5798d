use rudnn::grid_sample::{sample_taps, CubicTap};
use rudnn::tensor::{DType, HostTensor};

fn read(v: f32) -> f64 {
    v as f64
}

fn mac(acc: f64, a: f64, b: f64) -> f64 {
    acc + a * b
}

#[test]
fn bicubic_sample_weights_rows_and_columns() {
    let input = HostTensor::new(vec![1.0f32, 2.0, 3.0, 4.0], vec![1, 1, 2, 2], DType::F32);
    let tap: CubicTap<f64> = (
        [Some(0), Some(1), None, None],
        [Some(1), None, Some(0), None],
        [1.0, 10.0, 100.0, 1000.0],
        [1.0, 2.0, 3.0, 4.0],
    );
    let r = sample_taps(&input, 1, 1, &[tap], 0.0f64, &read, &mac, &|s: f64, _q: usize| s as f32);
    assert_eq!(r.shape, vec![1, 1, 1, 1]);
    assert_eq!(r.dtype, DType::F32);
    // Row 0: 2 * 1 + 1 * 3 = 5; row 1: 4 * 1 + 3 * 3 = 13; total 5 + 130.
    assert_eq!(r.data, vec![135.0]);
}

#[test]
fn bicubic_sample_uses_each_samples_grid_points() {
    // Two samples of two channels, two grid points each.
    let input = HostTensor::new((0..8).map(|v| v as f32).collect(), vec![2, 2, 1, 2], DType::F32);
    let pick = |col: usize| -> CubicTap<f64> {
        ([Some(0), None, None, None], [Some(col), None, None, None], [1.0, 0.0, 0.0, 0.0], [1.0, 0.0, 0.0, 0.0])
    };
    let taps = vec![pick(1), pick(0), pick(0), pick(1)];
    let finish = |s: f64, q: usize| (s + 100.0 * q as f64) as f32;
    let r = sample_taps(&input, 1, 2, &taps, 0.0f64, &read, &mac, &finish);
    assert_eq!(r.shape, vec![2, 2, 1, 2]);
    // Sample 0 reads columns 1 then 0 of each of its planes; sample 1 columns 0 then 1.
    assert_eq!(r.data, vec![1.0, 100.0, 3.0, 102.0, 204.0, 305.0, 206.0, 307.0]);
}

#[test]
fn bicubic_sample_with_no_grid_points() {
    let input = HostTensor::new(vec![1.0f32; 4], vec![1, 1, 2, 2], DType::F32);
    let r = sample_taps(&input, 0, 3, &[], 0.0f64, &read, &mac, &|s: f64, _q: usize| s as f32);
    assert_eq!(r.shape, vec![1, 1, 0, 3]);
    assert!(r.data.is_empty());
}
