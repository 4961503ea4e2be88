use vstd::prelude::*;

use crate::array_ops::zip_map::zip_map;
use crate::device::DeviceStorage;
use crate::error::TensorError;
use crate::shape::{
    aligned, broadcast_dims, broadcast_shapes, count_of, dims_compatible, lemma_broadcast_aligned,
    lemma_positive_count_axes, shape_mismatch_err, source_index, src_flat,
};
use crate::tensor::Tensor;

verus! {

/// Signed 64-bit division that wraps on overflow: the truncated
/// quotient, except that the one overflowing case (`i64::MIN / -1`)
/// wraps back to `i64::MIN`. Meaningful only for a non-zero divisor;
/// division by zero is reported by `div` as an error instead.
pub open spec fn div_wrapped(x: i64, y: i64) -> i64 {
    match x.checked_div(y) {
        Some(q) => q,
        None => i64::MIN,
    }
}

/// The additive inverse, wrapping on overflow: `i64::MIN` negates to
/// itself.
pub open spec fn neg_wrapped(x: i64) -> i64 {
    (0i64).wrapping_sub(x)
}

/// Elementwise addition with broadcasting. Overflow wraps around.
/// Fails exactly as `zip_map` does: `ShapeMismatch` on incompatible
/// shapes, `DeviceAllocationFailure` on an unrepresentable output
/// count.
pub fn add<D: DeviceStorage>(a: &Tensor<D>, b: &Tensor<D>) -> (r: Result<
    Tensor<D>,
    TensorError,
>)
    requires
        a.wf(),
        b.wf(),
    ensures
        (dims_compatible(a.shape_view(), b.shape_view()) && count_of(
            broadcast_dims(a.shape_view(), b.shape_view()),
        ) <= usize::MAX) ==> (r matches Ok(t) && t.wf() && t.shape_view() == broadcast_dims(
            a.shape_view(),
            b.shape_view(),
        ) && forall|i: int|
            0 <= i < t@.len() ==> #[trigger] t@[i] == a@[src_flat(
                t.shape_view(),
                a.shape_view(),
                i as nat,
            ) as int].wrapping_add(b@[src_flat(t.shape_view(), b.shape_view(), i as nat) as int])),
        (dims_compatible(a.shape_view(), b.shape_view()) && count_of(
            broadcast_dims(a.shape_view(), b.shape_view()),
        ) > usize::MAX) ==> (r matches Err(e) && e == TensorError::DeviceAllocationFailure),
        !dims_compatible(a.shape_view(), b.shape_view()) ==> (r matches Err(e)
            && shape_mismatch_err(e, a.shape_view(), b.shape_view())),
{
    let combine = |x: i64, y: i64| -> (z: i64)
        ensures
            z == x.wrapping_add(y),
        { x.wrapping_add(y) };
    zip_map(a, b, combine)
}

/// Elementwise subtraction with broadcasting. Overflow wraps around.
pub fn sub<D: DeviceStorage>(a: &Tensor<D>, b: &Tensor<D>) -> (r: Result<
    Tensor<D>,
    TensorError,
>)
    requires
        a.wf(),
        b.wf(),
    ensures
        (dims_compatible(a.shape_view(), b.shape_view()) && count_of(
            broadcast_dims(a.shape_view(), b.shape_view()),
        ) <= usize::MAX) ==> (r matches Ok(t) && t.wf() && t.shape_view() == broadcast_dims(
            a.shape_view(),
            b.shape_view(),
        ) && forall|i: int|
            0 <= i < t@.len() ==> #[trigger] t@[i] == a@[src_flat(
                t.shape_view(),
                a.shape_view(),
                i as nat,
            ) as int].wrapping_sub(b@[src_flat(t.shape_view(), b.shape_view(), i as nat) as int])),
        (dims_compatible(a.shape_view(), b.shape_view()) && count_of(
            broadcast_dims(a.shape_view(), b.shape_view()),
        ) > usize::MAX) ==> (r matches Err(e) && e == TensorError::DeviceAllocationFailure),
        !dims_compatible(a.shape_view(), b.shape_view()) ==> (r matches Err(e)
            && shape_mismatch_err(e, a.shape_view(), b.shape_view())),
{
    let combine = |x: i64, y: i64| -> (z: i64)
        ensures
            z == x.wrapping_sub(y),
        { x.wrapping_sub(y) };
    zip_map(a, b, combine)
}

/// Elementwise multiplication with broadcasting. Overflow wraps
/// around.
pub fn mul<D: DeviceStorage>(a: &Tensor<D>, b: &Tensor<D>) -> (r: Result<
    Tensor<D>,
    TensorError,
>)
    requires
        a.wf(),
        b.wf(),
    ensures
        (dims_compatible(a.shape_view(), b.shape_view()) && count_of(
            broadcast_dims(a.shape_view(), b.shape_view()),
        ) <= usize::MAX) ==> (r matches Ok(t) && t.wf() && t.shape_view() == broadcast_dims(
            a.shape_view(),
            b.shape_view(),
        ) && forall|i: int|
            0 <= i < t@.len() ==> #[trigger] t@[i] == a@[src_flat(
                t.shape_view(),
                a.shape_view(),
                i as nat,
            ) as int].wrapping_mul(b@[src_flat(t.shape_view(), b.shape_view(), i as nat) as int])),
        (dims_compatible(a.shape_view(), b.shape_view()) && count_of(
            broadcast_dims(a.shape_view(), b.shape_view()),
        ) > usize::MAX) ==> (r matches Err(e) && e == TensorError::DeviceAllocationFailure),
        !dims_compatible(a.shape_view(), b.shape_view()) ==> (r matches Err(e)
            && shape_mismatch_err(e, a.shape_view(), b.shape_view())),
{
    let combine = |x: i64, y: i64| -> (z: i64)
        ensures
            z == x.wrapping_mul(y),
        { x.wrapping_mul(y) };
    zip_map(a, b, combine)
}

/// Elementwise division with broadcasting. A zero divisor anywhere the
/// broadcast reads one is reported as `DivisionByZero` before any
/// tensor is returned; otherwise each output element is the truncated
/// quotient, wrapping on the one overflowing case (`div_wrapped`).
pub fn div<D: DeviceStorage>(a: &Tensor<D>, b: &Tensor<D>) -> (r: Result<
    Tensor<D>,
    TensorError,
>)
    requires
        a.wf(),
        b.wf(),
    ensures
        (dims_compatible(a.shape_view(), b.shape_view()) && count_of(
            broadcast_dims(a.shape_view(), b.shape_view()),
        ) <= usize::MAX && (forall|i: int|
            0 <= i < count_of(broadcast_dims(a.shape_view(), b.shape_view())) ==> b@[(
            #[trigger] src_flat(
                broadcast_dims(a.shape_view(), b.shape_view()),
                b.shape_view(),
                i as nat,
            )) as int] != 0)) ==> (r matches Ok(t) && t.wf() && t.shape_view() == broadcast_dims(
            a.shape_view(),
            b.shape_view(),
        ) && forall|i: int|
            0 <= i < t@.len() ==> #[trigger] t@[i] == div_wrapped(
                a@[src_flat(t.shape_view(), a.shape_view(), i as nat) as int],
                b@[src_flat(t.shape_view(), b.shape_view(), i as nat) as int],
            )),
        (dims_compatible(a.shape_view(), b.shape_view()) && count_of(
            broadcast_dims(a.shape_view(), b.shape_view()),
        ) <= usize::MAX && (exists|i: int|
            0 <= i < count_of(broadcast_dims(a.shape_view(), b.shape_view())) && b@[(
            #[trigger] src_flat(
                broadcast_dims(a.shape_view(), b.shape_view()),
                b.shape_view(),
                i as nat,
            )) as int] == 0)) ==> (r matches Err(e) && e == TensorError::DivisionByZero),
        (dims_compatible(a.shape_view(), b.shape_view()) && count_of(
            broadcast_dims(a.shape_view(), b.shape_view()),
        ) > usize::MAX) ==> (r matches Err(e) && e == TensorError::DeviceAllocationFailure),
        !dims_compatible(a.shape_view(), b.shape_view()) ==> (r matches Err(e)
            && shape_mismatch_err(e, a.shape_view(), b.shape_view())),
{
    let out_shape = match broadcast_shapes(a.shape(), b.shape()) {
        Ok(s) => s,
        Err(e) => {
            return Err(e);
        },
    };
    let n = match out_shape.element_count() {
        Some(n) => n,
        None => {
            return Err(TensorError::DeviceAllocationFailure);
        },
    };
    let device = a.device();
    let mut storage = device.allocate(n, 0);
    let ro = out_shape.rank();
    let ra = a.shape().rank();
    let rb = b.shape().rank();
    let a_len = a.len();
    let b_len = b.len();
    proof {
        lemma_broadcast_aligned(a.shape_view(), b.shape_view());
    }
    let mut i: usize = 0;
    while i < n
        invariant
            i <= n,
            n as nat == count_of(out_shape@),
            storage@.len() == n,
            out_shape@ == broadcast_dims(a.shape_view(), b.shape_view()),
            ro == out_shape@.len(),
            ra == a.shape_view().len(),
            rb == b.shape_view().len(),
            a_len == a@.len(),
            b_len == b@.len(),
            a.wf(),
            b.wf(),
            aligned(out_shape@, a.shape_view()),
            aligned(out_shape@, b.shape_view()),
            forall|j: int|
                0 <= j < i ==> b@[(#[trigger] src_flat(out_shape@, b.shape_view(), j as nat))
                    as int] != 0,
            forall|j: int|
                0 <= j < i ==> #[trigger] storage@[j] == div_wrapped(
                    a@[src_flat(out_shape@, a.shape_view(), j as nat) as int],
                    b@[src_flat(out_shape@, b.shape_view(), j as nat) as int],
                ),
        decreases n - i,
    {
        proof {
            lemma_positive_count_axes(out_shape@);
            assert forall|j: int| 0 <= j < ra implies (#[trigger] a.shape_view()[ra - 1 - j]
                == out_shape@[ro - 1 - j] || a.shape_view()[ra - 1 - j] == 1) by {
                assert(crate::shape::axis_from_right(a.shape_view(), j)
                    == crate::shape::axis_from_right(out_shape@, j)
                    || crate::shape::axis_from_right(a.shape_view(), j) == 1);
            }
            assert forall|j: int| 0 <= j < rb implies (#[trigger] b.shape_view()[rb - 1 - j]
                == out_shape@[ro - 1 - j] || b.shape_view()[rb - 1 - j] == 1) by {
                assert(crate::shape::axis_from_right(b.shape_view(), j)
                    == crate::shape::axis_from_right(out_shape@, j)
                    || crate::shape::axis_from_right(b.shape_view(), j) == 1);
            }
            assert(out_shape@.subrange(0, ro as int) =~= out_shape@);
            assert(a.shape_view().subrange(0, ra as int) =~= a.shape_view());
            assert(b.shape_view().subrange(0, rb as int) =~= b.shape_view());
        }
        let ia = source_index(&out_shape, a.shape(), ro, ra, i);
        let ib = source_index(&out_shape, b.shape(), ro, rb, i);
        let va = a.element(ia);
        let vb = b.element(ib);
        if vb == 0 {
            proof {
                let gi: int = i as int;
                assert(b@[(src_flat(
                    broadcast_dims(a.shape_view(), b.shape_view()),
                    b.shape_view(),
                    gi as nat,
                )) as int] == 0);
            }
            return Err(TensorError::DivisionByZero);
        }
        let v = match va.checked_div(vb) {
            Some(q) => q,
            None => i64::MIN,
        };
        device.write(&mut storage, i, v);
        i = i + 1;
    }
    Ok(Tensor::from_parts(device, out_shape, storage))
}

/// Elementwise additive inverse, wrapping on overflow (`i64::MIN`
/// stays `i64::MIN`). Built on `map`; the shape is unchanged.
pub fn negate<D: DeviceStorage>(t: &Tensor<D>) -> (r: Tensor<D>)
    requires
        t.wf(),
    ensures
        r.wf(),
        r.shape_view() == t.shape_view(),
        r@.len() == t@.len(),
        forall|i: int| 0 <= i < t@.len() ==> #[trigger] r@[i] == neg_wrapped(t@[i]),
{
    let f = |x: i64| -> (z: i64)
        ensures
            z == neg_wrapped(x),
        { (0i64).wrapping_sub(x) };
    crate::array_ops::map::map(t, f)
}

/// Multiplies every element by the scalar `k`, wrapping on overflow.
/// Built on `map`; the shape is unchanged.
pub fn scalar_mul<D: DeviceStorage>(t: &Tensor<D>, k: i64) -> (r: Tensor<D>)
    requires
        t.wf(),
    ensures
        r.wf(),
        r.shape_view() == t.shape_view(),
        r@.len() == t@.len(),
        forall|i: int| 0 <= i < t@.len() ==> #[trigger] r@[i] == t@[i].wrapping_mul(k),
{
    let f = |x: i64| -> (z: i64)
        ensures
            z == x.wrapping_mul(k),
        { x.wrapping_mul(k) };
    crate::array_ops::map::map(t, f)
}

} // verus!
