use vstd::prelude::*;

verus! {

/// An owned, device-resident buffer of elements, sized exactly to a
/// shape's element count and laid out contiguously in row-major order.
/// Its mathematical model is the sequence of its elements.
#[derive(Debug)]
pub struct Storage {
    data: Vec<i64>,
}

impl View for Storage {
    type V = Seq<i64>;

    closed spec fn view(&self) -> Seq<i64> {
        self.data@
    }
}

impl Storage {
    /// The number of elements the buffer holds.
    pub fn len(&self) -> (r: usize)
        ensures
            r == self@.len(),
    {
        self.data.len()
    }
}

/// The capability a backend must provide so that the array operations
/// can run on it: allocate storage filled with a constant, read and
/// write elements by flat index, and copy a whole host-resident buffer
/// in. Operations are written against this contract alone and never
/// against a particular backend.
pub trait DeviceStorage: Sized + Copy {
    /// Allocates storage for `len` elements, every one equal to
    /// `value`.
    fn allocate(&self, len: usize, value: i64) -> (s: Storage)
        ensures
            s@.len() == len,
            forall|i: int| 0 <= i < len ==> #[trigger] s@[i] == value,
    ;

    /// Reads the element at flat index `i`.
    fn read(&self, s: &Storage, i: usize) -> (v: i64)
        requires
            i < s@.len(),
        ensures
            v == s@[i as int],
    ;

    /// Overwrites the element at flat index `i` with `v`.
    fn write(&self, s: &mut Storage, i: usize, v: i64)
        requires
            i < old(s)@.len(),
        ensures
            final(s)@ == old(s)@.update(i as int, v),
    ;

    /// Overwrites the whole buffer with the contents of an equally
    /// long host-resident buffer.
    fn copy_from(&self, s: &mut Storage, data: &Vec<i64>)
        requires
            data@.len() == old(s)@.len(),
        ensures
            final(s)@ == data@,
    ;
}

/// The reference backend: host memory, one contiguous buffer per
/// storage.
#[derive(Clone, Copy, Debug)]
pub struct Cpu;

impl Default for Cpu {
    /// The host backend carries no state; its default value is the
    /// backend itself.
    fn default() -> (r: Self)
        ensures
            r == Cpu,
    {
        Cpu
    }
}

impl DeviceStorage for Cpu {
    fn allocate(&self, len: usize, value: i64) -> (s: Storage) {
        let mut data: Vec<i64> = Vec::new();
        let mut i: usize = 0;
        while i < len
            invariant
                i <= len,
                data@.len() == i,
                forall|j: int| 0 <= j < i ==> #[trigger] data@[j] == value,
            decreases len - i,
        {
            data.push(value);
            i = i + 1;
        }
        Storage { data }
    }

    fn read(&self, s: &Storage, i: usize) -> (v: i64) {
        s.data[i]
    }

    fn write(&self, s: &mut Storage, i: usize, v: i64) {
        s.data.set(i, v);
    }

    fn copy_from(&self, s: &mut Storage, data: &Vec<i64>) {
        let len = data.len();
        let mut i: usize = 0;
        while i < len
            invariant
                i <= len,
                len == data@.len(),
                s@.len() == old(s)@.len(),
                old(s)@.len() == len,
                forall|j: int| 0 <= j < i ==> #[trigger] s@[j] == data@[j],
            decreases len - i,
        {
            s.data.set(i, data[i]);
            i = i + 1;
        }
        proof {
            assert(s@ =~= data@);
        }
    }
}

} // verus!
