use vstd::prelude::*;

use crate::device::DeviceStorage;
use crate::error::TensorError;
use crate::shape::{count_of, Shape};
use crate::tensor::Tensor;

verus! {

/// Allocates a tensor of the given shape whose element at flat index
/// `i` is `generator(i)`, evaluating the generator in index order
/// `0..count`. Fails with `DeviceAllocationFailure` exactly when the
/// element count exceeds the address space; nothing else is mutated.
pub fn fill<D: DeviceStorage, F: Fn(usize) -> i64>(
    device: D,
    shape: Shape,
    generator: F,
) -> (r: Result<Tensor<D>, TensorError>)
    requires
        forall|i: usize| i < count_of(shape@) ==> call_requires(generator, (i,)),
    ensures
        count_of(shape@) <= usize::MAX ==> (r matches Ok(t) && t.wf() && t.shape_view() == shape@
            && forall|i: int|
            0 <= i < t@.len() ==> call_ensures(generator, ((i as usize),), #[trigger] t@[i])),
        count_of(shape@) > usize::MAX ==> (r matches Err(e) && e
            == TensorError::DeviceAllocationFailure),
{
    let n = match shape.element_count() {
        Some(n) => n,
        None => {
            return Err(TensorError::DeviceAllocationFailure);
        },
    };
    let mut storage = device.allocate(n, 0);
    let mut i: usize = 0;
    while i < n
        invariant
            i <= n,
            n as nat == count_of(shape@),
            storage@.len() == n,
            forall|i2: usize| i2 < count_of(shape@) ==> call_requires(generator, (i2,)),
            forall|j: int|
                0 <= j < i ==> call_ensures(generator, ((j as usize),), #[trigger] storage@[j]),
        decreases n - i,
    {
        let v = generator(i);
        device.write(&mut storage, i, v);
        i = i + 1;
    }
    Ok(Tensor::from_parts(device, shape, storage))
}

/// Filling with a constant generator and then mapping the identity
/// function over the result gives back exactly the constant fill: for
/// element sequences `first` (a fill with `k`), `mapped` (an identity
/// map of `first`), and `second` (another fill with `k` of the same
/// count), `mapped` equals `second`.
pub proof fn lemma_fill_then_identity_map<F: Fn(i64) -> i64>(
    f: F,
    k: i64,
    first: Seq<i64>,
    mapped: Seq<i64>,
    second: Seq<i64>,
)
    requires
        forall|x: i64, y: i64| call_ensures(f, (x,), y) ==> y == x,
        forall|i: int| 0 <= i < first.len() ==> #[trigger] first[i] == k,
        forall|i: int| 0 <= i < second.len() ==> #[trigger] second[i] == k,
        mapped.len() == first.len(),
        second.len() == first.len(),
        forall|i: int| 0 <= i < first.len() ==> call_ensures(f, (first[i],), #[trigger] mapped[i]),
    ensures
        mapped == second,
{
    assert forall|i: int| 0 <= i < mapped.len() implies #[trigger] mapped[i] == second[i] by {
        assert(call_ensures(f, (first[i],), mapped[i]));
    }
    assert(mapped =~= second);
}

} // verus!
