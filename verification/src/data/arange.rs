use vstd::prelude::*;

use crate::device::DeviceStorage;
use crate::error::TensorError;
use crate::shape::{count_of, Shape};
use crate::tensor::Tensor;

verus! {

/// Generates a tensor with ordered data from 0 to `n`.
pub trait Arange: DeviceStorage {
    /// Produces the rank-1 tensor of shape `(n,)` whose element at
    /// index `i` is `i`, converted to the element type, for `i` in
    /// `0..n` in increasing order. `n == 0` yields an empty tensor,
    /// not an error. Fails with `ConversionOverflow` exactly when
    /// `n` exceeds the element type's representable range; nothing is
    /// allocated in that case.
    fn arange(&self, n: usize) -> (r: Result<Tensor<Self>, TensorError>)
        ensures
            n <= i64::MAX ==> (r matches Ok(t) && t.wf() && t.shape_view() == seq![n as nat]
                && t@.len() == n && forall|i: int| 0 <= i < n ==> #[trigger] t@[i] == i as i64),
            n > i64::MAX ==> (r matches Err(e) && e == TensorError::ConversionOverflow),
    ;
}

impl<D: DeviceStorage> Arange for D {
    fn arange(&self, n: usize) -> (r: Result<Tensor<Self>, TensorError>) {
        if (n as u64) > (i64::MAX as u64) {
            return Err(TensorError::ConversionOverflow);
        }
        let mut data: Vec<i64> = Vec::new();
        let mut i: usize = 0;
        while i < n
            invariant
                i <= n,
                n <= i64::MAX,
                data@.len() == i,
                forall|j: int| 0 <= j < i ==> #[trigger] data@[j] == j as i64,
            decreases n - i,
        {
            data.push(i as i64);
            i = i + 1;
        }
        let shape = Shape::new(vec![n]);
        proof {
            let s = seq![n as nat];
            assert(shape@ =~= s);
            assert(s.drop_last() =~= Seq::<nat>::empty());
            assert(count_of(Seq::<nat>::empty()) == 1);
            assert(count_of(s) == count_of(s.drop_last()) * s.last());
            assert(count_of(shape@) == n as nat);
        }
        let storage = self.allocate(n, 0);
        let mut t = Tensor::from_parts(*self, shape, storage);
        t.copy_from(&data);
        Ok(t)
    }
}

} // verus!
