use vstd::prelude::*;

use crate::device::DeviceStorage;
use crate::error::TensorError;
use crate::shape::{count_of, Shape};
use crate::tensor::Tensor;

verus! {

/// Allocates a tensor of the given shape with every element equal to
/// the additive identity. Fails with `DeviceAllocationFailure` exactly
/// when the backend cannot hold the element count (it exceeds the
/// address space); a shape with a 0 axis has count 0 and succeeds with
/// an empty tensor.
pub fn zeros<D: DeviceStorage>(device: D, shape: Shape) -> (r: Result<Tensor<D>, TensorError>)
    ensures
        count_of(shape@) <= usize::MAX ==> (r matches Ok(t) && t.wf() && t.shape_view() == shape@
            && forall|i: int| 0 <= i < t@.len() ==> #[trigger] t@[i] == 0),
        count_of(shape@) > usize::MAX ==> (r matches Err(e) && e
            == TensorError::DeviceAllocationFailure),
{
    match shape.element_count() {
        Some(n) => {
            let storage = device.allocate(n, 0);
            Ok(Tensor::from_parts(device, shape, storage))
        },
        None => Err(TensorError::DeviceAllocationFailure),
    }
}

} // verus!
