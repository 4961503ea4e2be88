use vstd::prelude::*;

use crate::error::TensorError;

verus! {

/// The rank and per-axis sizes of a tensor. Axis sizes are run-time
/// values; the mathematical model of a shape is the sequence of its
/// sizes, and the element count of a tensor is their product.
#[derive(Debug)]
pub struct Shape {
    dims: Vec<usize>,
}

impl View for Shape {
    type V = Seq<nat>;

    closed spec fn view(&self) -> Seq<nat> {
        self.dims@.map_values(|d: usize| d as nat)
    }
}

/// The total element count of a shape: the product of its axis sizes,
/// 1 for the empty (rank-0) shape, and 0 whenever some axis is 0.
pub open spec fn count_of(dims: Seq<nat>) -> nat
    decreases dims.len(),
{
    if dims.len() == 0 {
        1
    } else {
        count_of(dims.drop_last()) * dims.last()
    }
}

/// The size of the axis `j` positions in from the innermost (rightmost)
/// axis; axes beyond the rank broadcast as size 1.
pub open spec fn axis_from_right(dims: Seq<nat>, j: int) -> nat {
    if 0 <= j < dims.len() {
        dims[dims.len() - 1 - j]
    } else {
        1
    }
}

/// Two aligned axis sizes are compatible when they are equal or one of
/// them is 1.
pub open spec fn dim_ok(x: nat, y: nat) -> bool {
    x == y || x == 1 || y == 1
}

/// The broadcast of two compatible axis sizes: the non-1 size wins.
pub open spec fn broadcast_dim(x: nat, y: nat) -> nat {
    if x == 1 {
        y
    } else if y == 1 {
        x
    } else {
        x
    }
}

/// The shorter rank of two shapes.
pub open spec fn shared_rank(a: Seq<nat>, b: Seq<nat>) -> int {
    if a.len() <= b.len() {
        a.len() as int
    } else {
        b.len() as int
    }
}

/// Broadcast compatibility: right-align the axes and require each
/// aligned pair to be equal or to contain a 1; axes present in only the
/// longer shape are carried through unchanged.
pub open spec fn dims_compatible(a: Seq<nat>, b: Seq<nat>) -> bool {
    forall|j: int|
        0 <= j < shared_rank(a, b) ==> dim_ok(
            #[trigger] axis_from_right(a, j),
            axis_from_right(b, j),
        )
}

/// The longer rank of two shapes: the rank of their broadcast.
pub open spec fn joint_rank(a: Seq<nat>, b: Seq<nat>) -> int {
    if a.len() <= b.len() {
        b.len() as int
    } else {
        a.len() as int
    }
}

/// The broadcast output shape of two compatible shapes.
pub open spec fn broadcast_dims(a: Seq<nat>, b: Seq<nat>) -> Seq<nat> {
    Seq::new(
        joint_rank(a, b) as nat,
        |k: int|
            broadcast_dim(
                axis_from_right(a, joint_rank(a, b) - 1 - k),
                axis_from_right(b, joint_rank(a, b) - 1 - k),
            ),
    )
}

/// An input shape `inp` is aligned under an output shape `out` when,
/// right-aligned, every axis of `inp` either equals the output axis or
/// is 1 (and so broadcasts).
pub open spec fn aligned(out: Seq<nat>, inp: Seq<nat>) -> bool {
    &&& inp.len() <= out.len()
    &&& forall|j: int|
        0 <= j < inp.len() ==> (#[trigger] axis_from_right(inp, j) == axis_from_right(out, j)
            || axis_from_right(inp, j) == 1)
}

/// Every axis size is at least 1 (equivalently, the element count is
/// not 0).
pub open spec fn all_positive(dims: Seq<nat>) -> bool {
    forall|j: int| 0 <= j < dims.len() ==> #[trigger] dims[j] >= 1
}

/// The flat index into a tensor of shape `inp` that a broadcast
/// operation reads when writing flat index `i` of its output of shape
/// `out`: the output's row-major coordinates, with every coordinate on
/// a size-1 or missing axis of `inp` replaced by 0, re-flattened in
/// `inp`.
pub open spec fn src_flat(out: Seq<nat>, inp: Seq<nat>, i: nat) -> nat
    decreases inp.len(),
{
    if inp.len() == 0 || out.len() == 0 {
        0
    } else {
        let d_out = out.last();
        let d_in = inp.last();
        let digit: nat = if d_in == 1 {
            0
        } else {
            i % d_out
        };
        src_flat(out.drop_last(), inp.drop_last(), i / d_out) * d_in + digit
    }
}

/// A multi-axis index addresses a point of a shape when it names one
/// coordinate per axis, each within its axis size.
pub open spec fn valid_index(dims: Seq<nat>, idx: Seq<nat>) -> bool {
    idx.len() == dims.len() && forall|k: int| 0 <= k < idx.len() ==> #[trigger] idx[k] < dims[k]
}

/// The flat position of a multi-axis index under the default
/// contiguous row-major layout: innermost coordinates vary fastest.
pub open spec fn flat_of(dims: Seq<nat>, idx: Seq<nat>) -> nat
    decreases dims.len(),
{
    if dims.len() == 0 {
        0
    } else {
        flat_of(dims.drop_last(), idx.drop_last()) * dims.last() + idx.last()
    }
}

/// What a `ShapeMismatch` error reports for two incompatible shapes:
/// the innermost aligned axis pair that fails to match, with both
/// sizes; every pair nearer the innermost axis matches.
pub open spec fn shape_mismatch_err(e: TensorError, a: Seq<nat>, b: Seq<nat>) -> bool {
    e matches TensorError::ShapeMismatch { axis, left, right } && 0 <= axis < shared_rank(a, b)
        && left as nat == axis_from_right(a, axis as int) && right as nat == axis_from_right(
        b,
        axis as int,
    ) && !dim_ok(left as nat, right as nat) && (forall|jj: int|
        0 <= jj < axis ==> dim_ok(#[trigger] axis_from_right(a, jj), axis_from_right(b, jj)))
}

/// Extending a prefix of a shape by one axis multiplies its element
/// count by that axis size.
pub proof fn lemma_count_take_succ(dims: Seq<nat>, k: int)
    requires
        0 <= k < dims.len(),
    ensures
        count_of(dims.subrange(0, k + 1)) == count_of(dims.subrange(0, k)) * dims[k],
{
    assert(dims.subrange(0, k + 1).drop_last() =~= dims.subrange(0, k));
    assert(dims.subrange(0, k + 1).last() == dims[k]);
}

/// A shape with a 0 axis has element count 0.
pub proof fn lemma_count_zero_axis(dims: Seq<nat>, j: int)
    requires
        0 <= j < dims.len(),
        dims[j] == 0,
    ensures
        count_of(dims) == 0,
    decreases dims.len(),
{
    if j == dims.len() - 1 {
        assert(count_of(dims) == count_of(dims.drop_last()) * 0);
    } else {
        lemma_count_zero_axis(dims.drop_last(), j);
        assert(count_of(dims) == 0 * dims.last());
    }
}

/// A shape with a positive element count has only positive axes.
pub proof fn lemma_positive_count_axes(dims: Seq<nat>)
    requires
        count_of(dims) > 0,
    ensures
        all_positive(dims),
{
    assert forall|j: int| 0 <= j < dims.len() implies #[trigger] dims[j] >= 1 by {
        if dims[j] == 0 {
            lemma_count_zero_axis(dims, j);
        }
    }
}

/// With positive axes, the element count of a prefix of a shape never
/// exceeds that of the whole shape.
pub proof fn lemma_count_take_le(dims: Seq<nat>, k: int)
    requires
        all_positive(dims),
        0 <= k <= dims.len(),
    ensures
        count_of(dims.subrange(0, k)) <= count_of(dims),
    decreases dims.len() - k,
{
    if k == dims.len() {
        assert(dims.subrange(0, k) =~= dims);
    } else {
        lemma_count_take_succ(dims, k);
        assert(count_of(dims.subrange(0, k)) <= count_of(dims.subrange(0, k)) * dims[k])
            by (nonlinear_arith)
            requires
                dims[k] >= 1,
        ;
        lemma_count_take_le(dims, k + 1);
    }
}

/// Both operands of a broadcast are aligned under its output shape, and
/// the output has the longer rank.
pub proof fn lemma_broadcast_aligned(a: Seq<nat>, b: Seq<nat>)
    requires
        dims_compatible(a, b),
    ensures
        broadcast_dims(a, b).len() == joint_rank(a, b),
        aligned(broadcast_dims(a, b), a),
        aligned(broadcast_dims(a, b), b),
{
    let o = broadcast_dims(a, b);
    let r = joint_rank(a, b);
    assert forall|j: int| 0 <= j < a.len() implies (#[trigger] axis_from_right(a, j)
        == axis_from_right(o, j) || axis_from_right(a, j) == 1) by {
        assert(o[r - 1 - j] == broadcast_dim(axis_from_right(a, j), axis_from_right(b, j)));
    }
    assert forall|j: int| 0 <= j < b.len() implies (#[trigger] axis_from_right(b, j)
        == axis_from_right(o, j) || axis_from_right(b, j) == 1) by {
        assert(o[r - 1 - j] == broadcast_dim(axis_from_right(a, j), axis_from_right(b, j)));
    }
}

impl Shape {
    /// Builds a shape from its per-axis sizes.
    pub fn new(dims: Vec<usize>) -> (r: Shape)
        ensures
            r@.len() == dims@.len(),
            forall|j: int| 0 <= j < dims@.len() ==> r@[j] == #[trigger] dims@[j] as nat,
    {
        Shape { dims }
    }

    /// The number of axes.
    pub fn rank(&self) -> (r: usize)
        ensures
            r == self@.len(),
    {
        self.dims.len()
    }

    /// The size of axis `axis`, counted from the outermost axis.
    pub fn dim(&self, axis: usize) -> (r: usize)
        requires
            axis < self@.len(),
        ensures
            r as nat == self@[axis as int],
    {
        self.dims[axis]
    }

    /// The total element count, or `None` when the product of the axis
    /// sizes does not fit the address space (such storage can never be
    /// allocated).
    pub fn element_count(&self) -> (r: Option<usize>)
        ensures
            match r {
                Some(c) => c as nat == count_of(self@),
                None => count_of(self@) > usize::MAX,
            },
    {
        let rank = self.dims.len();
        let mut i: usize = 0;
        // A 0 axis makes the count 0 no matter what the other axes are.
        while i < rank
            invariant
                i <= rank,
                rank == self@.len(),
                forall|j: int| 0 <= j < i ==> #[trigger] self@[j] >= 1,
            decreases rank - i,
        {
            if self.dims[i] == 0 {
                proof {
                    lemma_count_zero_axis(self@, i as int);
                }
                return Some(0);
            }
            i = i + 1;
        }
        // All axes are positive: the count only grows, so a checked
        // product either completes or proves the count unrepresentable.
        let mut acc: usize = 1;
        let mut k: usize = 0;
        proof {
            assert(self@.subrange(0, 0) =~= Seq::<nat>::empty());
        }
        while k < rank
            invariant
                k <= rank,
                rank == self@.len(),
                all_positive(self@),
                acc as nat == count_of(self@.subrange(0, k as int)),
            decreases rank - k,
        {
            let d = self.dims[k];
            proof {
                lemma_count_take_succ(self@, k as int);
            }
            match acc.checked_mul(d) {
                Some(x) => {
                    acc = x;
                },
                None => {
                    proof {
                        lemma_count_take_le(self@, k as int + 1);
                    }
                    return None;
                },
            }
            k = k + 1;
        }
        proof {
            assert(self@.subrange(0, rank as int) =~= self@);
        }
        Some(acc)
    }
}

impl Shape {
    /// The flat (row-major) position of a multi-axis index into this
    /// shape; always within the element count.
    pub fn flat_index(&self, idx: &Vec<usize>) -> (r: usize)
        requires
            valid_index(self@, idx@.map_values(|v: usize| v as nat)),
            count_of(self@) <= usize::MAX,
        ensures
            r as nat == flat_of(self@, idx@.map_values(|v: usize| v as nat)),
            (r as nat) < count_of(self@),
    {
        let ghost gidx = idx@.map_values(|v: usize| v as nat);
        let rank = self.dims.len();
        let mut acc: usize = 0;
        let mut k: usize = 0;
        proof {
            assert(self@.subrange(0, 0) =~= Seq::<nat>::empty());
            assert(gidx.subrange(0, 0) =~= Seq::<nat>::empty());
        }
        while k < rank
            invariant
                k <= rank,
                rank == self@.len(),
                gidx == idx@.map_values(|v: usize| v as nat),
                valid_index(self@, gidx),
                count_of(self@) <= usize::MAX,
                acc as nat == flat_of(self@.subrange(0, k as int), gidx.subrange(0, k as int)),
                (acc as nat) < count_of(self@.subrange(0, k as int)),
            decreases rank - k,
        {
            let d = self.dims[k];
            let m = idx[k];
            proof {
                lemma_count_take_succ(self@, k as int);
                assert forall|j: int| 0 <= j < self@.len() implies #[trigger] self@[j] >= 1 by {
                    assert(gidx[j] < self@[j]);
                }
                lemma_count_take_le(self@, k as int + 1);
                assert(gidx[k as int] == m as nat);
                assert(self@[k as int] == d as nat);
                assert(gidx[k as int] < self@[k as int]);
                assert((acc as int) * (d as int) + (m as int) < count_of(
                    self@.subrange(0, k as int + 1),
                ) as int) by (nonlinear_arith)
                    requires
                        (acc as nat) < count_of(self@.subrange(0, k as int)),
                        (m as nat) < d as nat,
                        count_of(self@.subrange(0, k as int + 1)) == count_of(
                            self@.subrange(0, k as int),
                        ) * (d as nat),
                ;
                assert(self@.subrange(0, k as int + 1).drop_last() =~= self@.subrange(0, k as int));
                assert(gidx.subrange(0, k as int + 1).drop_last() =~= gidx.subrange(0, k as int));
                assert(self@.subrange(0, k as int + 1).last() == self@[k as int]);
                assert(gidx.subrange(0, k as int + 1).last() == gidx[k as int]);
            }
            acc = acc * d + m;
            k = k + 1;
        }
        proof {
            assert(self@.subrange(0, rank as int) =~= self@);
            assert(gidx.subrange(0, rank as int) =~= gidx);
        }
        acc
    }
}

impl Clone for Shape {
    /// A shape clone keeps every axis size.
    fn clone(&self) -> (r: Self)
        ensures
            r@ == self@,
    {
        let rank = self.dims.len();
        let mut dims: Vec<usize> = Vec::new();
        let mut i: usize = 0;
        while i < rank
            invariant
                i <= rank,
                rank == self.dims@.len(),
                dims@ =~= self.dims@.subrange(0, i as int),
            decreases rank - i,
        {
            dims.push(self.dims[i]);
            i = i + 1;
        }
        proof {
            assert(dims@ =~= self.dims@);
        }
        let r = Shape { dims };
        proof {
            assert(r@ =~= self@);
        }
        r
    }
}

/// Whether two shapes are broadcast-compatible: run before any storage
/// is allocated for a binary operation.
pub fn shapes_compatible(a: &Shape, b: &Shape) -> (r: bool)
    ensures
        r == dims_compatible(a@, b@),
{
    let ra = a.rank();
    let rb = b.rank();
    let shared = if ra <= rb {
        ra
    } else {
        rb
    };
    let mut j: usize = 0;
    while j < shared
        invariant
            j <= shared,
            shared == shared_rank(a@, b@),
            ra == a@.len(),
            rb == b@.len(),
            forall|jj: int|
                0 <= jj < j ==> dim_ok(#[trigger] axis_from_right(a@, jj), axis_from_right(b@, jj)),
        decreases shared - j,
    {
        let da = a.dim(ra - 1 - j);
        let db = b.dim(rb - 1 - j);
        if !(da == db || da == 1 || db == 1) {
            proof {
                assert(axis_from_right(a@, j as int) == da as nat);
                assert(axis_from_right(b@, j as int) == db as nat);
                assert(!dim_ok(axis_from_right(a@, j as int), axis_from_right(b@, j as int)));
            }
            return false;
        }
        j = j + 1;
    }
    true
}

/// Derives the broadcast output shape of two shapes, or reports the
/// innermost incompatible axis pair as a `ShapeMismatch`. Fails before
/// anything is allocated; the caller's operands are untouched.
pub fn broadcast_shapes(a: &Shape, b: &Shape) -> (r: Result<Shape, TensorError>)
    ensures
        dims_compatible(a@, b@) ==> (r matches Ok(o) && o@ == broadcast_dims(a@, b@)),
        !dims_compatible(a@, b@) ==> (r matches Err(e) && shape_mismatch_err(e, a@, b@)),
{
    let ra = a.rank();
    let rb = b.rank();
    let shared = if ra <= rb {
        ra
    } else {
        rb
    };
    let joint = if ra <= rb {
        rb
    } else {
        ra
    };
    // Scan aligned pairs from the innermost axis outward, so that a
    // mismatch names the innermost incompatible pair.
    let mut j: usize = 0;
    while j < shared
        invariant
            j <= shared,
            shared == shared_rank(a@, b@),
            ra == a@.len(),
            rb == b@.len(),
            forall|jj: int|
                0 <= jj < j ==> dim_ok(#[trigger] axis_from_right(a@, jj), axis_from_right(b@, jj)),
        decreases shared - j,
    {
        let da = a.dim(ra - 1 - j);
        let db = b.dim(rb - 1 - j);
        if !(da == db || da == 1 || db == 1) {
            proof {
                assert(axis_from_right(a@, j as int) == da as nat);
                assert(axis_from_right(b@, j as int) == db as nat);
                assert(!dim_ok(axis_from_right(a@, j as int), axis_from_right(b@, j as int)));
            }
            return Err(TensorError::ShapeMismatch { axis: j, left: da, right: db });
        }
        j = j + 1;
    }
    let mut dims: Vec<usize> = Vec::new();
    let mut k: usize = 0;
    while k < joint
        invariant
            k <= joint,
            joint == joint_rank(a@, b@),
            ra == a@.len(),
            rb == b@.len(),
            dims_compatible(a@, b@),
            dims@.len() == k,
            forall|kk: int|
                0 <= kk < k ==> #[trigger] dims@[kk] as nat == broadcast_dims(a@, b@)[kk],
        decreases joint - k,
    {
        let j = joint - 1 - k;
        let da = if j < ra {
            a.dim(ra - 1 - j)
        } else {
            1
        };
        let db = if j < rb {
            b.dim(rb - 1 - j)
        } else {
            1
        };
        let d = if da == 1 {
            db
        } else {
            da
        };
        proof {
            assert(da as nat == axis_from_right(a@, j as int));
            assert(db as nat == axis_from_right(b@, j as int));
            assert(d as nat == broadcast_dim(
                axis_from_right(a@, joint_rank(a@, b@) - 1 - k),
                axis_from_right(b@, joint_rank(a@, b@) - 1 - k),
            ));
        }
        dims.push(d);
        k = k + 1;
    }
    let o = Shape::new(dims);
    proof {
        assert forall|kk: int| 0 <= kk < joint implies o@[kk] == broadcast_dims(a@, b@)[kk] by {
            assert(o@[kk] == dims@[kk] as nat);
            assert(dims@[kk] as nat == broadcast_dims(a@, b@)[kk]);
        }
        assert(o@ =~= broadcast_dims(a@, b@));
    }
    Ok(o)
}

/// Computes `src_flat` over the first `k_out` axes of `out` and the
/// first `k_in` axes of `inp` (right-aligned): the flat index of the
/// element of `inp` that flat output index `i` reads under
/// broadcasting. The result always addresses an element of `inp`.
pub fn source_index(out: &Shape, inp: &Shape, k_out: usize, k_in: usize, i: usize) -> (r: usize)
    requires
        k_in <= k_out,
        k_out <= out@.len(),
        k_in <= inp@.len(),
        forall|j: int| 0 <= j < k_out ==> #[trigger] out@[j] >= 1,
        forall|j: int|
            0 <= j < k_in ==> (#[trigger] inp@[k_in - 1 - j] == out@[k_out - 1 - j] || inp@[k_in
                - 1 - j] == 1),
        (i as nat) < count_of(out@.subrange(0, k_out as int)),
        count_of(inp@.subrange(0, k_in as int)) <= usize::MAX,
    ensures
        r as nat == src_flat(out@.subrange(0, k_out as int), inp@.subrange(0, k_in as int), i as nat),
        (r as nat) < count_of(inp@.subrange(0, k_in as int)),
    decreases k_in,
{
    if k_in == 0 {
        proof {
            assert(inp@.subrange(0, 0) =~= Seq::<nat>::empty());
        }
        return 0;
    }
    let d_out = out.dim(k_out - 1);
    let d_in = inp.dim(k_in - 1);
    let ghost c_out_pre = count_of(out@.subrange(0, k_out as int - 1));
    let ghost c_in_pre = count_of(inp@.subrange(0, k_in as int - 1));
    proof {
        assert(inp@[k_in - 1] == out@[k_out - 1] || inp@[k_in - 1] == 1);
        lemma_count_take_succ(out@, k_out as int - 1);
        lemma_count_take_succ(inp@, k_in as int - 1);
        assert((d_out as int) * (c_out_pre as int) == (c_out_pre as int) * (d_out as int))
            by (nonlinear_arith);
        vstd::arithmetic::div_mod::lemma_multiply_divide_lt(
            i as int,
            d_out as int,
            c_out_pre as int,
        );
        assert(c_in_pre <= c_in_pre * (d_in as nat)) by (nonlinear_arith)
            requires
                d_in >= 1,
        ;
        assert forall|j: int|
            0 <= j < k_in - 1 implies (#[trigger] inp@[(k_in - 1) - 1 - j] == out@[(k_out - 1) - 1
            - j] || inp@[(k_in - 1) - 1 - j] == 1) by {
            assert(inp@[k_in - 1 - (j + 1)] == out@[k_out - 1 - (j + 1)] || inp@[k_in - 1 - (j + 1)]
                == 1);
        }
    }
    let q = i / d_out;
    let m = i % d_out;
    let rest = source_index(out, inp, k_out - 1, k_in - 1, q);
    let digit = if d_in == 1 {
        0
    } else {
        m
    };
    proof {
        assert((rest as int) * (d_in as int) + (digit as int) < count_of(
            inp@.subrange(0, k_in as int),
        ) as int) by (nonlinear_arith)
            requires
                (rest as int) < c_in_pre as int,
                (digit as int) < d_in as int,
                count_of(inp@.subrange(0, k_in as int)) == c_in_pre * (d_in as nat),
        ;
    }
    let r = rest * d_in + digit;
    proof {
        let op = out@.subrange(0, k_out as int);
        let ip = inp@.subrange(0, k_in as int);
        assert(op.drop_last() =~= out@.subrange(0, k_out as int - 1));
        assert(ip.drop_last() =~= inp@.subrange(0, k_in as int - 1));
        assert(op.last() == out@[k_out - 1]);
        assert(ip.last() == inp@[k_in - 1]);
        assert(src_flat(op, ip, i as nat) == src_flat(
            op.drop_last(),
            ip.drop_last(),
            (i as nat) / (d_out as nat),
        ) * (d_in as nat) + (if d_in == 1 {
            0nat
        } else {
            (i as nat) % (d_out as nat)
        }));
    }
    r
}

} // verus!
