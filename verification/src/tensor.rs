use vstd::prelude::*;

use crate::device::{DeviceStorage, Storage};
use crate::shape::{count_of, flat_of, valid_index, Shape};

verus! {

/// A shape, an element buffer, and the device the buffer lives on.
/// The invariant `wf` ties the two: the storage holds exactly one
/// element per point of the shape. The element type is a 64-bit signed
/// integer.
///
/// Storage is owned by exactly one tensor: mutating operations take the
/// tensor by `&mut` (unique ownership), while broadcast inputs are read
/// through `&`, so a read view can never alias a mutation.
#[derive(Debug)]
pub struct Tensor<D: DeviceStorage> {
    device: D,
    shape: Shape,
    storage: Storage,
}

impl<D: DeviceStorage> View for Tensor<D> {
    type V = Seq<i64>;

    closed spec fn view(&self) -> Seq<i64> {
        self.storage@
    }
}

impl<D: DeviceStorage> Tensor<D> {
    /// The sizes of the tensor's axes.
    pub closed spec fn shape_view(&self) -> Seq<nat> {
        self.shape@
    }

    /// Well-formedness: the storage holds exactly the shape's element
    /// count.
    pub open spec fn wf(&self) -> bool {
        self@.len() == count_of(self.shape_view())
    }

    /// Pairs a shape with storage of exactly the right size on the
    /// given device.
    pub(crate) fn from_parts(device: D, shape: Shape, storage: Storage) -> (t: Tensor<D>)
        requires
            storage@.len() == count_of(shape@),
        ensures
            t.wf(),
            t.shape_view() == shape@,
            t@ == storage@,
    {
        Tensor { device, shape, storage }
    }

    /// The device this tensor's storage is bound to.
    pub fn device(&self) -> (d: D) {
        self.device
    }

    /// The tensor's shape.
    pub fn shape(&self) -> (s: &Shape)
        ensures
            s@ == self.shape_view(),
    {
        &self.shape
    }

    /// The number of elements held.
    pub fn len(&self) -> (r: usize)
        ensures
            r == self@.len(),
    {
        self.storage.len()
    }

    /// Reads the element at flat (row-major) index `i`.
    pub fn element(&self, i: usize) -> (v: i64)
        requires
            i < self@.len(),
        ensures
            v == self@[i as int],
    {
        self.device.read(&self.storage, i)
    }

    /// Overwrites the element at flat index `i`. Requires unique
    /// ownership of the tensor, so no live read view can observe a
    /// partial update.
    pub fn set_element(&mut self, i: usize, v: i64)
        requires
            i < old(self)@.len(),
        ensures
            final(self)@ == old(self)@.update(i as int, v),
            final(self).shape_view() == old(self).shape_view(),
    {
        let device = self.device;
        device.write(&mut self.storage, i, v);
    }

    /// Reads the element at a multi-axis index, one coordinate per
    /// axis, under the row-major layout.
    pub fn element_at(&self, idx: &Vec<usize>) -> (v: i64)
        requires
            self.wf(),
            valid_index(self.shape_view(), idx@.map_values(|x: usize| x as nat)),
        ensures
            v == self@[flat_of(self.shape_view(), idx@.map_values(|x: usize| x as nat)) as int],
    {
        // Reading the exec length bounds the element count by the
        // address space, which flat_index needs.
        let _ = self.len();
        let i = self.shape.flat_index(idx);
        self.element(i)
    }

    /// Overwrites the element at a multi-axis index. Requires unique
    /// ownership of the tensor.
    pub fn set_element_at(&mut self, idx: &Vec<usize>, v: i64)
        requires
            old(self).wf(),
            valid_index(old(self).shape_view(), idx@.map_values(|x: usize| x as nat)),
        ensures
            final(self)@ == old(self)@.update(
                flat_of(old(self).shape_view(), idx@.map_values(|x: usize| x as nat)) as int,
                v,
            ),
            final(self).shape_view() == old(self).shape_view(),
    {
        // Reading the exec length bounds the element count by the
        // address space, which flat_index needs.
        let _ = self.len();
        let i = self.shape.flat_index(idx);
        self.set_element(i, v);
    }

    /// Overwrites the whole tensor with the contents of an equally
    /// long host-resident buffer, in flat index order.
    pub fn copy_from(&mut self, data: &Vec<i64>)
        requires
            data@.len() == old(self)@.len(),
        ensures
            final(self)@ == data@,
            final(self).shape_view() == old(self).shape_view(),
    {
        let device = self.device;
        device.copy_from(&mut self.storage, data);
    }

    /// The elements in flat (row-major) order, copied to a
    /// host-resident buffer.
    pub fn as_sequence(&self) -> (r: Vec<i64>)
        ensures
            r@ == self@,
    {
        let n = self.len();
        let mut r: Vec<i64> = Vec::new();
        let mut i: usize = 0;
        while i < n
            invariant
                i <= n,
                n == self@.len(),
                r@ =~= self@.subrange(0, i as int),
            decreases n - i,
        {
            r.push(self.element(i));
            i = i + 1;
        }
        proof {
            assert(r@ =~= self@);
        }
        r
    }
}

} // verus!
