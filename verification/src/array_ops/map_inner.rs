use vstd::prelude::*;

use crate::device::DeviceStorage;
use crate::shape::lemma_positive_count_axes;
use crate::tensor::Tensor;

verus! {

/// Applies a unary elementwise function along the innermost axis only,
/// driving the traversal row by row (one contiguous run of
/// innermost-axis elements at a time) and preserving the rest of the
/// shape structure. `f` is total over one element and, being
/// elementwise, touches every element exactly once, so the result
/// relates to the input exactly as `map` does.
pub fn map_inner<D: DeviceStorage, F: Fn(i64) -> i64>(t: &Tensor<D>, f: F) -> (r: Tensor<D>)
    requires
        t.wf(),
        t.shape_view().len() >= 1,
        forall|x: i64| call_requires(f, (x,)),
    ensures
        r.wf(),
        r.shape_view() == t.shape_view(),
        r@.len() == t@.len(),
        forall|i: int| 0 <= i < t@.len() ==> call_ensures(f, (t@[i],), #[trigger] r@[i]),
{
    let n = t.len();
    let rank = t.shape().rank();
    let inner = t.shape().dim(rank - 1);
    let device = t.device();
    let mut storage = device.allocate(n, 0);
    let mut base: usize = 0;
    while base < n
        invariant
            base <= n,
            n == t@.len(),
            t.wf(),
            rank == t.shape_view().len(),
            rank >= 1,
            inner as nat == t.shape_view().last(),
            storage@.len() == n,
            forall|x: i64| call_requires(f, (x,)),
            forall|j: int| 0 <= j < base ==> call_ensures(f, (t@[j],), #[trigger] storage@[j]),
        decreases n - base,
    {
        proof {
            // A non-empty tensor has only positive axes, so each row
            // is non-empty and the traversal advances.
            lemma_positive_count_axes(t.shape_view());
            assert(t.shape_view()[rank - 1] >= 1);
        }
        let row_end = if n - base < inner {
            n
        } else {
            base + inner
        };
        let mut k: usize = base;
        while k < row_end
            invariant
                base <= k <= row_end <= n,
                n == t@.len(),
                storage@.len() == n,
                forall|x: i64| call_requires(f, (x,)),
                forall|j: int| 0 <= j < k ==> call_ensures(f, (t@[j],), #[trigger] storage@[j]),
            decreases row_end - k,
        {
            let v = f(t.element(k));
            device.write(&mut storage, k, v);
            k = k + 1;
        }
        base = row_end;
    }
    let shape = t.shape().clone();
    Tensor::from_parts(device, shape, storage)
}

} // verus!
