use tensor_core::error::TensorError;
use tensor_core::shape::{broadcast_shapes, shapes_compatible, Shape};

#[test]
fn rank_and_dims() {
    let s = Shape::new(vec![2, 3, 4]);
    assert_eq!(s.rank(), 3);
    assert_eq!(s.dim(0), 2);
    assert_eq!(s.dim(1), 3);
    assert_eq!(s.dim(2), 4);
}

#[test]
fn element_count_small() {
    assert_eq!(Shape::new(vec![2, 3, 4]).element_count(), Some(24));
    assert_eq!(Shape::new(vec![]).element_count(), Some(1));
    assert_eq!(Shape::new(vec![5]).element_count(), Some(5));
}

#[test]
fn element_count_zero_axis() {
    assert_eq!(Shape::new(vec![2, 0, 3]).element_count(), Some(0));
    // A 0 axis zeroes the count even when other axes are enormous.
    assert_eq!(Shape::new(vec![usize::MAX, usize::MAX, 0]).element_count(), Some(0));
}

#[test]
fn element_count_overflow() {
    let s = Shape::new(vec![1 << 33, 1 << 33]);
    assert_eq!(s.element_count(), None);
}

#[test]
fn shape_clone_keeps_dims() {
    let s = Shape::new(vec![7, 1, 2]);
    let c = s.clone();
    assert_eq!(c.rank(), 3);
    assert_eq!(c.dim(0), 7);
    assert_eq!(c.dim(1), 1);
    assert_eq!(c.dim(2), 2);
}

#[test]
fn compatible_same_shape() {
    let a = Shape::new(vec![3, 4]);
    let b = Shape::new(vec![3, 4]);
    assert!(shapes_compatible(&a, &b));
}

#[test]
fn compatible_broadcast_ones() {
    let a = Shape::new(vec![3, 1]);
    let b = Shape::new(vec![3, 4]);
    assert!(shapes_compatible(&a, &b));
}

#[test]
fn compatible_rank_mismatch() {
    let a = Shape::new(vec![2, 3, 4]);
    let b = Shape::new(vec![4]);
    assert!(shapes_compatible(&a, &b));
}

#[test]
fn incompatible_sizes() {
    let a = Shape::new(vec![3, 2]);
    let b = Shape::new(vec![3, 4]);
    assert!(!shapes_compatible(&a, &b));
}

#[test]
fn broadcast_output_shape() {
    let a = Shape::new(vec![3, 1]);
    let b = Shape::new(vec![3, 4]);
    let o = broadcast_shapes(&a, &b).unwrap();
    assert_eq!(o.rank(), 2);
    assert_eq!(o.dim(0), 3);
    assert_eq!(o.dim(1), 4);
}

#[test]
fn broadcast_carries_longer_rank() {
    let a = Shape::new(vec![2, 3, 4]);
    let b = Shape::new(vec![4]);
    let o = broadcast_shapes(&a, &b).unwrap();
    assert_eq!(o.rank(), 3);
    assert_eq!(o.dim(0), 2);
    assert_eq!(o.dim(1), 3);
    assert_eq!(o.dim(2), 4);
}

#[test]
fn broadcast_zero_axis() {
    // A 0 axis matches another 0 or a 1, and the output axis is 0.
    let a = Shape::new(vec![1]);
    let b = Shape::new(vec![0]);
    let o = broadcast_shapes(&a, &b).unwrap();
    assert_eq!(o.rank(), 1);
    assert_eq!(o.dim(0), 0);
}

#[test]
fn broadcast_mismatch_names_axis() {
    // Aligned from the right, the innermost incompatible pair wins.
    let a = Shape::new(vec![3, 2]);
    let b = Shape::new(vec![4]);
    let e = broadcast_shapes(&a, &b).unwrap_err();
    assert_eq!(e, TensorError::ShapeMismatch { axis: 0, left: 2, right: 4 });
}

#[test]
fn broadcast_mismatch_outer_axis() {
    let a = Shape::new(vec![5, 3]);
    let b = Shape::new(vec![6, 3]);
    let e = broadcast_shapes(&a, &b).unwrap_err();
    assert_eq!(e, TensorError::ShapeMismatch { axis: 1, left: 5, right: 6 });
}

#[test]
fn broadcast_mismatch_zero_axis() {
    let a = Shape::new(vec![0]);
    let b = Shape::new(vec![3]);
    let e = broadcast_shapes(&a, &b).unwrap_err();
    assert_eq!(e, TensorError::ShapeMismatch { axis: 0, left: 0, right: 3 });
}
