use rudnn::embedding::{embedding, embedding_backward};
use rudnn::tensor::{DType, HostTensor};

#[test]
fn embedding_selects_rows() {
    let weights = HostTensor::new(vec![0.0f32, 1.0, 10.0, 11.0, 20.0, 21.0], vec![3, 2], DType::F32);
    let indices = HostTensor::new(vec![2i64, 0, 1, 2], vec![2, 2], DType::I64);
    let r = embedding(weights, indices);
    assert_eq!(r.shape, vec![2, 2, 2]);
    assert_eq!(r.dtype, DType::F32);
    assert_eq!(r.data, vec![20.0, 21.0, 0.0, 1.0, 10.0, 11.0, 20.0, 21.0]);
}

#[test]
fn embedding_empty_batch() {
    let weights = HostTensor::new(vec![1.0f64, 2.0], vec![1, 2], DType::F64);
    let indices = HostTensor::new(Vec::<i64>::new(), vec![0, 3], DType::I64);
    let r = embedding(weights, indices);
    assert_eq!(r.shape, vec![0, 3, 2]);
    assert!(r.data.is_empty());
}

#[test]
fn embedding_backward_accumulates_repeated_rows() {
    let weights = HostTensor::new(vec![0.0f32; 6], vec![3, 2], DType::F32);
    let indices = HostTensor::new(vec![2i64, 0, 2, 2], vec![2, 2], DType::I64);
    let grad = HostTensor::new(vec![1.0f32, 2.0, 3.0, 4.0, 5.0, 6.0, 7.0, 8.0], vec![2, 2, 2], DType::F32);
    let r = embedding_backward(weights, grad, indices, 0.0f32, &|a: f32, b: f32| a + b);
    assert_eq!(r.shape, vec![3, 2]);
    // Row 0 receives the second grad row, row 1 nothing, row 2 rows 0, 2 and 3.
    assert_eq!(r.data, vec![3.0, 4.0, 0.0, 0.0, 1.0 + 5.0 + 7.0, 2.0 + 6.0 + 8.0]);
}

#[test]
fn embedding_backward_of_lookup_counts_uses() {
    // Backward of a lookup with an all-ones gradient counts how often each row is used.
    let weights = HostTensor::new(vec![0i64; 8], vec![4, 2], DType::I64);
    let indices = HostTensor::new(vec![1i64, 1, 3], vec![1, 3], DType::I64);
    let grad = HostTensor::new(vec![1i64; 6], vec![1, 3, 2], DType::I64);
    let r = embedding_backward(weights, grad, indices, 0i64, &|a: i64, b: i64| a + b);
    assert_eq!(r.data, vec![0, 0, 2, 2, 0, 0, 1, 1]);
}
