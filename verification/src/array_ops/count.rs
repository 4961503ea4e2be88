use vstd::prelude::*;

use crate::device::DeviceStorage;
use crate::shape::count_of;
use crate::tensor::Tensor;

verus! {

/// The cardinality of a tensor: its shape's total element count.
pub fn count<D: DeviceStorage>(t: &Tensor<D>) -> (r: usize)
    requires
        t.wf(),
    ensures
        r as nat == count_of(t.shape_view()),
{
    t.len()
}

} // verus!
