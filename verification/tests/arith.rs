use tensor_core::array_ops::arith;
use tensor_core::array_ops::fill::fill;
use tensor_core::array_ops::zero::zeros;
use tensor_core::device::Cpu;
use tensor_core::error::TensorError;
use tensor_core::shape::Shape;

fn vector(values: &[i64]) -> tensor_core::tensor::Tensor<Cpu> {
    let owned: Vec<i64> = values.to_vec();
    fill(Cpu, Shape::new(vec![values.len()]), move |i| owned[i]).unwrap()
}

#[test]
fn add_broadcasts() {
    let a = fill(Cpu, Shape::new(vec![3, 1]), |_| 2).unwrap();
    let b = fill(Cpu, Shape::new(vec![3, 4]), |_| 5).unwrap();
    let t = arith::add(&a, &b).unwrap();
    assert_eq!(t.shape().dim(0), 3);
    assert_eq!(t.shape().dim(1), 4);
    assert_eq!(t.as_sequence(), vec![7i64; 12]);
}

#[test]
fn sub_elementwise() {
    let a = vector(&[10, 20, 30]);
    let b = vector(&[1, 2, 3]);
    let t = arith::sub(&a, &b).unwrap();
    assert_eq!(t.as_sequence(), vec![9, 18, 27]);
}

#[test]
fn mul_with_scalar_like_operand() {
    let a = vector(&[1, 2, 3]);
    let b = fill(Cpu, Shape::new(vec![1]), |_| 4).unwrap();
    let t = arith::mul(&a, &b).unwrap();
    assert_eq!(t.as_sequence(), vec![4, 8, 12]);
}

#[test]
fn div_truncates_toward_zero() {
    let a = vector(&[7, -7, 7, -7]);
    let b = vector(&[2, 2, -2, -2]);
    let t = arith::div(&a, &b).unwrap();
    assert_eq!(t.as_sequence(), vec![3, -3, -3, 3]);
}

#[test]
fn div_by_zero_is_error() {
    let a = vector(&[1, 2, 3]);
    let b = vector(&[1, 0, 3]);
    let e = arith::div(&a, &b).unwrap_err();
    assert_eq!(e, TensorError::DivisionByZero);
}

#[test]
fn div_by_zero_checked_before_result() {
    // Even a broadcast zero divisor is an error, wherever it is read.
    let a = fill(Cpu, Shape::new(vec![2, 2]), |_| 8).unwrap();
    let b = fill(Cpu, Shape::new(vec![1]), |_| 0).unwrap();
    let e = arith::div(&a, &b).unwrap_err();
    assert_eq!(e, TensorError::DivisionByZero);
}

#[test]
fn div_overflow_wraps() {
    // The one overflowing quotient, i64::MIN / -1, wraps to i64::MIN.
    let a = vector(&[i64::MIN]);
    let b = vector(&[-1]);
    let t = arith::div(&a, &b).unwrap();
    assert_eq!(t.as_sequence(), vec![i64::MIN]);
}

#[test]
fn add_overflow_wraps() {
    let a = vector(&[i64::MAX]);
    let b = vector(&[1]);
    let t = arith::add(&a, &b).unwrap();
    assert_eq!(t.as_sequence(), vec![i64::MIN]);
}

#[test]
fn sub_overflow_wraps() {
    let a = vector(&[i64::MIN]);
    let b = vector(&[1]);
    let t = arith::sub(&a, &b).unwrap();
    assert_eq!(t.as_sequence(), vec![i64::MAX]);
}

#[test]
fn mul_overflow_wraps() {
    let a = vector(&[i64::MAX]);
    let b = vector(&[2]);
    let t = arith::mul(&a, &b).unwrap();
    assert_eq!(t.as_sequence(), vec![-2]);
}

#[test]
fn negate_elementwise() {
    let t = vector(&[1, -2, 0]);
    let n = arith::negate(&t);
    assert_eq!(n.as_sequence(), vec![-1, 2, 0]);
}

#[test]
fn negate_min_wraps() {
    let t = vector(&[i64::MIN]);
    let n = arith::negate(&t);
    assert_eq!(n.as_sequence(), vec![i64::MIN]);
}

#[test]
fn scalar_mul_scales() {
    let t = vector(&[1, 2, 3]);
    let s = arith::scalar_mul(&t, -3);
    assert_eq!(s.as_sequence(), vec![-3, -6, -9]);
}

#[test]
fn arith_shape_mismatch() {
    let a = zeros(Cpu, Shape::new(vec![2])).unwrap();
    let b = zeros(Cpu, Shape::new(vec![3])).unwrap();
    let e = arith::add(&a, &b).unwrap_err();
    assert_eq!(e, TensorError::ShapeMismatch { axis: 0, left: 2, right: 3 });
}
