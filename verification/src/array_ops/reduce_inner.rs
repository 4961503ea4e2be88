use vstd::prelude::*;

use crate::array_ops::reduce::fold_steps;
use crate::device::DeviceStorage;
use crate::error::TensorError;
use crate::shape::{count_of, Shape};
use crate::tensor::Tensor;

verus! {

/// Reduces only the innermost axis: element `j` of the output is the
/// left fold, from `init` by `combine`, of row `j` of the input (the
/// `j`-th contiguous run of `inner` elements, where `inner` is the
/// innermost axis size). With `keep_dim` the output keeps the
/// innermost axis collapsed to size 1; without it the axis is dropped
/// and the rank shrinks by one. A zero-sized innermost axis yields
/// `init` for every slot without invoking `combine`.
///
/// Fails with `DeviceAllocationFailure` exactly when the output
/// element count exceeds the address space (possible only when the
/// innermost axis is 0 and the outer axes are enormous).
pub fn reduce_inner<D: DeviceStorage, F: Fn(i64, i64) -> i64>(
    t: &Tensor<D>,
    init: i64,
    combine: F,
    keep_dim: bool,
) -> (r: Result<Tensor<D>, TensorError>)
    requires
        t.wf(),
        t.shape_view().len() >= 1,
        forall|x: i64, y: i64| call_requires(combine, (x, y)),
    ensures
        count_of(t.shape_view().drop_last()) <= usize::MAX ==> (r matches Ok(o) && o.wf()
            && o.shape_view() == (if keep_dim {
            t.shape_view().drop_last().push(1)
        } else {
            t.shape_view().drop_last()
        }) && o@.len() == count_of(t.shape_view().drop_last()) && forall|j: int|
            0 <= j < o@.len() ==> fold_steps(
                combine,
                t@.subrange(
                    j * (t.shape_view().last() as int),
                    j * (t.shape_view().last() as int) + (t.shape_view().last() as int),
                ),
                init,
                #[trigger] o@[j],
            )),
        count_of(t.shape_view().drop_last()) > usize::MAX ==> (r matches Err(e) && e
            == TensorError::DeviceAllocationFailure),
{
    let rank = t.shape().rank();
    let inner = t.shape().dim(rank - 1);
    let ghost outer = t.shape_view().drop_last();
    let mut dims: Vec<usize> = Vec::new();
    let mut k: usize = 0;
    while k < rank - 1
        invariant
            k <= rank - 1,
            rank == t.shape_view().len(),
            dims@.len() == k,
            forall|kk: int| 0 <= kk < k ==> #[trigger] dims@[kk] as nat == t.shape_view()[kk],
        decreases rank - 1 - k,
    {
        dims.push(t.shape().dim(k));
        k = k + 1;
    }
    if keep_dim {
        dims.push(1);
    }
    let ghost flat_dims = dims@;
    let out_shape = Shape::new(dims);
    proof {
        assert forall|kk: int| 0 <= kk < flat_dims.len() implies out_shape@[kk] == outer.push(
            1,
        )[kk] && (kk < rank - 1 ==> out_shape@[kk] == outer[kk]) by {
            assert(out_shape@[kk] == flat_dims[kk] as nat);
            if kk < rank - 1 {
                assert(flat_dims[kk] as nat == t.shape_view()[kk]);
            }
        }
        if keep_dim {
            assert(out_shape@ =~= outer.push(1));
            assert(outer.push(1).drop_last() =~= outer);
            assert(count_of(out_shape@) == count_of(outer) * 1);
        } else {
            assert(out_shape@ =~= outer);
        }
    }
    let m = match out_shape.element_count() {
        Some(m) => m,
        None => {
            return Err(TensorError::DeviceAllocationFailure);
        },
    };
    let device = t.device();
    let mut storage = device.allocate(m, 0);
    let t_len = t.len();
    proof {
        assert(t.shape_view().drop_last() =~= outer);
        assert(count_of(t.shape_view()) == count_of(outer) * (t.shape_view().last() as nat));
    }
    let mut j: usize = 0;
    while j < m
        invariant
            j <= m,
            m as nat == count_of(outer),
            storage@.len() == m,
            rank == t.shape_view().len(),
            rank >= 1,
            outer == t.shape_view().drop_last(),
            inner as nat == t.shape_view().last(),
            t.wf(),
            t_len == t@.len(),
            t_len as int == (m as int) * (inner as int),
            forall|x: i64, y: i64| call_requires(combine, (x, y)),
            forall|jj: int|
                0 <= jj < j ==> fold_steps(
                    combine,
                    t@.subrange(
                        jj * (inner as int),
                        jj * (inner as int) + (inner as int),
                    ),
                    init,
                    #[trigger] storage@[jj],
                ),
        decreases m - j,
    {
        proof {
            assert((j as int) * (inner as int) + (inner as int) <= (m as int) * (inner as int))
                by (nonlinear_arith)
                requires
                    (j as int) < (m as int),
                    (inner as int) >= 0,
            ;
            assert((j as int) * (inner as int) >= 0) by (nonlinear_arith)
                requires
                    (j as int) >= 0,
                    (inner as int) >= 0,
            ;
        }
        let base = j * inner;
        let mut acc = init;
        let mut k2: usize = 0;
        proof {
            assert(t@.subrange(base as int, base as int) =~= Seq::<i64>::empty());
        }
        while k2 < inner
            invariant
                k2 <= inner,
                base as int == (j as int) * (inner as int),
                base + inner <= t_len,
                t_len == t@.len(),
                forall|x: i64, y: i64| call_requires(combine, (x, y)),
                fold_steps(combine, t@.subrange(base as int, base as int + k2), init, acc),
            decreases inner - k2,
        {
            let v = t.element(base + k2);
            let next = combine(acc, v);
            proof {
                assert(t@.subrange(base as int, base as int + k2 + 1).drop_last() =~= t@.subrange(
                    base as int,
                    base as int + k2,
                ));
                assert(t@.subrange(base as int, base as int + k2 + 1).last() == t@[base + k2]);
                assert(call_ensures(combine, (acc, t@[base + k2]), next));
            }
            acc = next;
            k2 = k2 + 1;
        }
        device.write(&mut storage, j, acc);
        j = j + 1;
    }
    Ok(Tensor::from_parts(device, out_shape, storage))
}

} // verus!
