use vstd::prelude::*;

use crate::device::DeviceStorage;
use crate::error::TensorError;
use crate::shape::{
    aligned, axis_from_right, broadcast_dims, broadcast_shapes, count_of, dims_compatible,
    lemma_broadcast_aligned, lemma_positive_count_axes, shape_mismatch_err, source_index, src_flat,
};
use crate::tensor::Tensor;

verus! {

/// Applies a binary elementwise function across two tensors whose
/// shapes are broadcast-compatible. The output takes the broadcast
/// shape; its element at flat index `i` is a result of `f` on the two
/// source elements that broadcasting maps `i` to (`src_flat`): a
/// size-1 axis is read at coordinate 0, by index remapping rather than
/// by materializing an expanded copy.
///
/// Fails with `ShapeMismatch` (naming the innermost incompatible axis
/// pair) exactly when the shapes are incompatible, and with
/// `DeviceAllocationFailure` exactly when the broadcast shape's element
/// count exceeds the address space — in both cases before any output
/// allocation.
pub fn zip_map<D: DeviceStorage, F: Fn(i64, i64) -> i64>(
    a: &Tensor<D>,
    b: &Tensor<D>,
    f: F,
) -> (r: Result<Tensor<D>, TensorError>)
    requires
        a.wf(),
        b.wf(),
        forall|x: i64, y: i64| call_requires(f, (x, y)),
    ensures
        (dims_compatible(a.shape_view(), b.shape_view()) && count_of(
            broadcast_dims(a.shape_view(), b.shape_view()),
        ) <= usize::MAX) ==> (r matches Ok(t) && t.wf() && t.shape_view() == broadcast_dims(
            a.shape_view(),
            b.shape_view(),
        ) && forall|i: int|
            0 <= i < t@.len() ==> call_ensures(
                f,
                (
                    a@[src_flat(t.shape_view(), a.shape_view(), i as nat) as int],
                    b@[src_flat(t.shape_view(), b.shape_view(), i as nat) as int],
                ),
                #[trigger] t@[i],
            )),
        (dims_compatible(a.shape_view(), b.shape_view()) && count_of(
            broadcast_dims(a.shape_view(), b.shape_view()),
        ) > usize::MAX) ==> (r matches Err(e) && e == TensorError::DeviceAllocationFailure),
        !dims_compatible(a.shape_view(), b.shape_view()) ==> (r matches Err(e)
            && shape_mismatch_err(e, a.shape_view(), b.shape_view())),
{
    let out_shape = match broadcast_shapes(a.shape(), b.shape()) {
        Ok(s) => s,
        Err(e) => {
            return Err(e);
        },
    };
    let n = match out_shape.element_count() {
        Some(n) => n,
        None => {
            return Err(TensorError::DeviceAllocationFailure);
        },
    };
    let device = a.device();
    let mut storage = device.allocate(n, 0);
    let ro = out_shape.rank();
    let ra = a.shape().rank();
    let rb = b.shape().rank();
    let a_len = a.len();
    let b_len = b.len();
    proof {
        lemma_broadcast_aligned(a.shape_view(), b.shape_view());
    }
    let mut i: usize = 0;
    while i < n
        invariant
            i <= n,
            n as nat == count_of(out_shape@),
            storage@.len() == n,
            out_shape@ == broadcast_dims(a.shape_view(), b.shape_view()),
            ro == out_shape@.len(),
            ra == a.shape_view().len(),
            rb == b.shape_view().len(),
            a_len == a@.len(),
            b_len == b@.len(),
            a.wf(),
            b.wf(),
            aligned(out_shape@, a.shape_view()),
            aligned(out_shape@, b.shape_view()),
            forall|x: i64, y: i64| call_requires(f, (x, y)),
            forall|j: int|
                0 <= j < i ==> call_ensures(
                    f,
                    (
                        a@[src_flat(out_shape@, a.shape_view(), j as nat) as int],
                        b@[src_flat(out_shape@, b.shape_view(), j as nat) as int],
                    ),
                    #[trigger] storage@[j],
                ),
        decreases n - i,
    {
        proof {
            lemma_positive_count_axes(out_shape@);
            assert forall|j: int| 0 <= j < ra implies (#[trigger] a.shape_view()[ra - 1 - j]
                == out_shape@[ro - 1 - j] || a.shape_view()[ra - 1 - j] == 1) by {
                assert(axis_from_right(a.shape_view(), j) == axis_from_right(out_shape@, j)
                    || axis_from_right(a.shape_view(), j) == 1);
            }
            assert forall|j: int| 0 <= j < rb implies (#[trigger] b.shape_view()[rb - 1 - j]
                == out_shape@[ro - 1 - j] || b.shape_view()[rb - 1 - j] == 1) by {
                assert(axis_from_right(b.shape_view(), j) == axis_from_right(out_shape@, j)
                    || axis_from_right(b.shape_view(), j) == 1);
            }
            assert(out_shape@.subrange(0, ro as int) =~= out_shape@);
            assert(a.shape_view().subrange(0, ra as int) =~= a.shape_view());
            assert(b.shape_view().subrange(0, rb as int) =~= b.shape_view());
        }
        let ia = source_index(&out_shape, a.shape(), ro, ra, i);
        let ib = source_index(&out_shape, b.shape(), ro, rb, i);
        let v = f(a.element(ia), b.element(ib));
        device.write(&mut storage, i, v);
        i = i + 1;
    }
    Ok(Tensor::from_parts(device, out_shape, storage))
}

} // verus!
