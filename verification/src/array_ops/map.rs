use vstd::prelude::*;

use crate::device::DeviceStorage;
use crate::tensor::Tensor;

verus! {

/// Applies a unary elementwise function to every element, producing a
/// new tensor of the same shape: every output element is a result of
/// `f` on the corresponding input element. `f` must be total over the
/// element type; it has no error path.
pub fn map<D: DeviceStorage, F: Fn(i64) -> i64>(t: &Tensor<D>, f: F) -> (r: Tensor<D>)
    requires
        t.wf(),
        forall|x: i64| call_requires(f, (x,)),
    ensures
        r.wf(),
        r.shape_view() == t.shape_view(),
        r@.len() == t@.len(),
        forall|i: int| 0 <= i < t@.len() ==> call_ensures(f, (t@[i],), #[trigger] r@[i]),
{
    let n = t.len();
    let device = t.device();
    let mut storage = device.allocate(n, 0);
    let mut i: usize = 0;
    while i < n
        invariant
            i <= n,
            n == t@.len(),
            storage@.len() == n,
            forall|x: i64| call_requires(f, (x,)),
            forall|j: int| 0 <= j < i ==> call_ensures(f, (t@[j],), #[trigger] storage@[j]),
        decreases n - i,
    {
        let v = f(t.element(i));
        device.write(&mut storage, i, v);
        i = i + 1;
    }
    let shape = t.shape().clone();
    Tensor::from_parts(device, shape, storage)
}

/// Applies a unary elementwise function to every element in place,
/// reusing the tensor's storage instead of allocating. The `&mut`
/// receiver enforces that the tensor is uniquely owned: no read view
/// of the same storage can be live across the call.
pub fn map_inplace<D: DeviceStorage, F: Fn(i64) -> i64>(t: &mut Tensor<D>, f: F)
    requires
        old(t).wf(),
        forall|x: i64| call_requires(f, (x,)),
    ensures
        final(t).wf(),
        final(t).shape_view() == old(t).shape_view(),
        final(t)@.len() == old(t)@.len(),
        forall|i: int|
            0 <= i < old(t)@.len() ==> call_ensures(f, (old(t)@[i],), #[trigger] final(t)@[i]),
{
    let n = t.len();
    let mut i: usize = 0;
    while i < n
        invariant
            i <= n,
            n == old(t)@.len(),
            t@.len() == old(t)@.len(),
            t.shape_view() == old(t).shape_view(),
            forall|x: i64| call_requires(f, (x,)),
            forall|j: int| i <= j < n ==> #[trigger] t@[j] == old(t)@[j],
            forall|j: int| 0 <= j < i ==> call_ensures(f, (old(t)@[j],), #[trigger] t@[j]),
        decreases n - i,
    {
        let v = f(t.element(i));
        t.set_element(i, v);
        i = i + 1;
    }
}

/// Mapping an identity function leaves a tensor observably unchanged:
/// if every result of `f` equals its argument, the element sequence
/// `r` produced by mapping `f` over `t` is `t` itself.
pub proof fn lemma_map_identity<F: Fn(i64) -> i64>(f: F, t: Seq<i64>, r: Seq<i64>)
    requires
        forall|x: i64, y: i64| call_ensures(f, (x,), y) ==> y == x,
        r.len() == t.len(),
        forall|i: int| 0 <= i < t.len() ==> call_ensures(f, (t[i],), #[trigger] r[i]),
    ensures
        r == t,
{
    assert forall|i: int| 0 <= i < t.len() implies #[trigger] r[i] == t[i] by {
        assert(call_ensures(f, (t[i],), r[i]));
    }
    assert(r =~= t);
}

} // verus!
