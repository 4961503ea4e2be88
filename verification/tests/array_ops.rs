use tensor_core::array_ops::count::count;
use tensor_core::array_ops::fill::fill;
use tensor_core::array_ops::map::map_inplace;
use tensor_core::array_ops::map_inner::map_inner;
use tensor_core::array_ops::reduce::reduce;
use tensor_core::array_ops::reduce_inner::reduce_inner;
use tensor_core::array_ops::zero::zeros;
use tensor_core::array_ops::zip_map::zip_map;
use tensor_core::data::arange::Arange;
use tensor_core::device::Cpu;
use tensor_core::error::TensorError;
use tensor_core::shape::Shape;

#[test]
fn zeros_are_zero() {
    let t = zeros(Cpu, Shape::new(vec![2, 3])).unwrap();
    assert_eq!(t.as_sequence(), vec![0i64; 6]);
    assert_eq!(count(&t), 6);
}

#[test]
fn zeros_empty_shape_is_scalar() {
    let t = zeros(Cpu, Shape::new(vec![])).unwrap();
    assert_eq!(t.as_sequence(), vec![0i64]);
}

#[test]
fn zeros_zero_axis_is_empty() {
    let t = zeros(Cpu, Shape::new(vec![2, 0, 3])).unwrap();
    assert_eq!(t.as_sequence(), Vec::<i64>::new());
    assert_eq!(count(&t), 0);
}

#[test]
fn zeros_unrepresentable_count_fails() {
    let e = zeros(Cpu, Shape::new(vec![1 << 33, 1 << 33])).unwrap_err();
    assert_eq!(e, TensorError::DeviceAllocationFailure);
}

#[test]
fn fill_by_flat_index() {
    let t = fill(Cpu, Shape::new(vec![2, 3]), |i| (i as i64) * 2).unwrap();
    assert_eq!(t.as_sequence(), vec![0, 2, 4, 6, 8, 10]);
}

#[test]
fn map_identity_keeps_tensor() {
    // Filling and then mapping the identity gives back the fill.
    let t = fill(Cpu, Shape::new(vec![3, 2]), |_| 9).unwrap();
    let m = tensor_core::array_ops::map::map(&t, |x| x);
    assert_eq!(m.as_sequence(), t.as_sequence());
    assert_eq!(m.as_sequence(), vec![9i64; 6]);
    assert_eq!(m.shape().rank(), 2);
}

#[test]
fn map_applies_elementwise() {
    let t = fill(Cpu, Shape::new(vec![4]), |i| i as i64).unwrap();
    let m = tensor_core::array_ops::map::map(&t, |x| x.wrapping_mul(10));
    assert_eq!(m.as_sequence(), vec![0, 10, 20, 30]);
}

#[test]
fn map_inplace_reuses_storage() {
    let mut t = fill(Cpu, Shape::new(vec![4]), |i| i as i64).unwrap();
    map_inplace(&mut t, |x| x.wrapping_add(1));
    assert_eq!(t.as_sequence(), vec![1, 2, 3, 4]);
    assert_eq!(t.shape().rank(), 1);
}

#[test]
fn map_inner_touches_every_element() {
    let t = fill(Cpu, Shape::new(vec![2, 3]), |i| i as i64).unwrap();
    let m = map_inner(&t, |x| x.wrapping_mul(-1));
    assert_eq!(m.as_sequence(), vec![0, -1, -2, -3, -4, -5]);
    assert_eq!(m.shape().rank(), 2);
}

#[test]
fn zip_map_broadcasts_size_one_axis() {
    // Shape (3,1) of 2 against shape (3,4) of 5 under addition gives
    // shape (3,4), every element 7.
    let a = fill(Cpu, Shape::new(vec![3, 1]), |_| 2).unwrap();
    let b = fill(Cpu, Shape::new(vec![3, 4]), |_| 5).unwrap();
    let t = zip_map(&a, &b, |x: i64, y: i64| x.wrapping_add(y)).unwrap();
    assert_eq!(t.shape().rank(), 2);
    assert_eq!(t.shape().dim(0), 3);
    assert_eq!(t.shape().dim(1), 4);
    assert_eq!(t.as_sequence(), vec![7i64; 12]);
}

#[test]
fn zip_map_remaps_indices() {
    // Row vector against column vector: out[r][c] = a[r] * b[c].
    let a = fill(Cpu, Shape::new(vec![3, 1]), |i| (i + 1) as i64).unwrap();
    let b = fill(Cpu, Shape::new(vec![1, 4]), |i| (i + 1) as i64).unwrap();
    let t = zip_map(&a, &b, |x: i64, y: i64| x.wrapping_mul(y)).unwrap();
    assert_eq!(t.as_sequence(), vec![1, 2, 3, 4, 2, 4, 6, 8, 3, 6, 9, 12]);
}

#[test]
fn zip_map_incompatible_fails_with_mismatch() {
    let a = fill(Cpu, Shape::new(vec![3, 2]), |_| 1).unwrap();
    let b = fill(Cpu, Shape::new(vec![4]), |_| 1).unwrap();
    let e = zip_map(&a, &b, |x: i64, y: i64| x.wrapping_add(y)).unwrap_err();
    assert_eq!(e, TensorError::ShapeMismatch { axis: 0, left: 2, right: 4 });
}

#[test]
fn reduce_of_zeros_is_zero() {
    let t = zeros(Cpu, Shape::new(vec![3, 4])).unwrap();
    let r = reduce(&t, 0, |acc: i64, x: i64| acc.wrapping_add(x));
    assert_eq!(r, 0);
}

#[test]
fn reduce_of_ones_counts_elements() {
    let t = fill(Cpu, Shape::new(vec![3, 4]), |_| 1).unwrap();
    let r = reduce(&t, 0, |acc: i64, x: i64| acc.wrapping_add(x));
    assert_eq!(r, count(&t) as i64);
    assert_eq!(r, 12);
}

#[test]
fn reduce_empty_yields_identity() {
    let t = zeros(Cpu, Shape::new(vec![0])).unwrap();
    let r = reduce(&t, 42, |acc: i64, x: i64| acc.wrapping_add(x));
    assert_eq!(r, 42);
}

#[test]
fn reduce_folds_in_index_order() {
    let t = fill(Cpu, Shape::new(vec![3]), |i| (i + 1) as i64).unwrap();
    // A non-commutative combine exposes the left-to-right order:
    // ((0*10+1)*10+2)*10+3 = 123.
    let r = reduce(&t, 0, |acc: i64, x: i64| acc.wrapping_mul(10).wrapping_add(x));
    assert_eq!(r, 123);
}

#[test]
fn reduce_inner_sums_rows() {
    // Rows [1,2,3] and [4,5,6] sum to [6, 15].
    let t = fill(Cpu, Shape::new(vec![2, 3]), |i| (i + 1) as i64).unwrap();
    let r = reduce_inner(&t, 0, |acc: i64, x: i64| acc.wrapping_add(x), false).unwrap();
    assert_eq!(r.shape().rank(), 1);
    assert_eq!(r.shape().dim(0), 2);
    assert_eq!(r.as_sequence(), vec![6, 15]);
}

#[test]
fn reduce_inner_keep_dim() {
    let t = fill(Cpu, Shape::new(vec![2, 3]), |i| (i + 1) as i64).unwrap();
    let r = reduce_inner(&t, 0, |acc: i64, x: i64| acc.wrapping_add(x), true).unwrap();
    assert_eq!(r.shape().rank(), 2);
    assert_eq!(r.shape().dim(0), 2);
    assert_eq!(r.shape().dim(1), 1);
    assert_eq!(r.as_sequence(), vec![6, 15]);
}

#[test]
fn reduce_inner_zero_axis_yields_identity() {
    let t = zeros(Cpu, Shape::new(vec![2, 0])).unwrap();
    let r = reduce_inner(&t, 7, |acc: i64, x: i64| acc.wrapping_add(x), false).unwrap();
    assert_eq!(r.as_sequence(), vec![7, 7]);
}

#[test]
fn reduce_inner_unrepresentable_output_fails() {
    // An empty tensor whose outer axes multiply past the address
    // space: the reduction output cannot be allocated.
    let t = zeros(Cpu, Shape::new(vec![1 << 33, 1 << 33, 0])).unwrap();
    let e = reduce_inner(&t, 0, |acc: i64, x: i64| acc.wrapping_add(x), false).unwrap_err();
    assert_eq!(e, TensorError::DeviceAllocationFailure);
}

#[test]
fn arange_sequences() {
    let dev = Cpu;
    for n in [0usize, 1, 5, 1000] {
        let t = dev.arange(n).unwrap();
        let expect: Vec<i64> = (0..n as i64).collect();
        assert_eq!(t.as_sequence(), expect);
        assert_eq!(t.shape().rank(), 1);
        assert_eq!(t.shape().dim(0), n);
    }
}

#[test]
fn arange_zero_is_empty_not_error() {
    let t = Cpu.arange(0).unwrap();
    assert_eq!(t.as_sequence(), Vec::<i64>::new());
}

#[test]
fn arange_overflow_is_error() {
    let e = Cpu.arange(usize::MAX).unwrap_err();
    assert_eq!(e, TensorError::ConversionOverflow);
}

#[test]
fn element_access() {
    let t = fill(Cpu, Shape::new(vec![2, 2]), |i| (i * i) as i64).unwrap();
    assert_eq!(t.element(0), 0);
    assert_eq!(t.element(3), 9);
    assert_eq!(t.len(), 4);
}

#[test]
fn set_element_updates_one_slot() {
    let mut t = zeros(Cpu, Shape::new(vec![3])).unwrap();
    t.set_element(1, 5);
    assert_eq!(t.as_sequence(), vec![0, 5, 0]);
}

#[test]
fn copy_from_host_buffer() {
    let mut t = zeros(Cpu, Shape::new(vec![4])).unwrap();
    t.copy_from(&vec![4, 3, 2, 1]);
    assert_eq!(t.as_sequence(), vec![4, 3, 2, 1]);
}

#[test]
fn element_at_multi_index() {
    // Row-major: element (r, c) of a (2,3) tensor sits at 3r + c.
    let t = fill(Cpu, Shape::new(vec![2, 3]), |i| (i * 10) as i64).unwrap();
    assert_eq!(t.element_at(&vec![0, 0]), 0);
    assert_eq!(t.element_at(&vec![0, 2]), 20);
    assert_eq!(t.element_at(&vec![1, 0]), 30);
    assert_eq!(t.element_at(&vec![1, 2]), 50);
}

#[test]
fn set_element_at_multi_index() {
    let mut t = zeros(Cpu, Shape::new(vec![2, 2])).unwrap();
    t.set_element_at(&vec![1, 0], 8);
    assert_eq!(t.as_sequence(), vec![0, 0, 8, 0]);
}

#[test]
fn flat_index_row_major() {
    let s = Shape::new(vec![2, 3, 4]);
    assert_eq!(s.flat_index(&vec![0, 0, 0]), 0);
    assert_eq!(s.flat_index(&vec![0, 0, 3]), 3);
    assert_eq!(s.flat_index(&vec![0, 2, 1]), 9);
    assert_eq!(s.flat_index(&vec![1, 2, 3]), 23);
}
