use vstd::prelude::*;

use crate::device::DeviceStorage;
use crate::tensor::Tensor;

verus! {

/// `r` is a left fold of the sequence `s` by the combining function
/// `f` starting from `init`: there is a chain of intermediate values,
/// one per element taken in flat index order, each a result of `f` on
/// the previous accumulator and the element, ending in `r`. An empty
/// sequence folds to `init` without invoking `f`. When `f` is
/// deterministic this pins `r` down; a well-defined result under other
/// traversal orders is owed only to an associative and commutative
/// `f`, which is the caller's obligation.
pub open spec fn fold_steps<F: Fn(i64, i64) -> i64>(f: F, s: Seq<i64>, init: i64, r: i64) -> bool
    decreases s.len(),
{
    if s.len() == 0 {
        r == init
    } else {
        exists|m: i64|
            fold_steps(f, s.drop_last(), init, m) && #[trigger] call_ensures(
                f,
                (m, s.last()),
                r,
            )
    }
}

/// Folds all elements of a tensor into one value with the combining
/// function, starting from `init`, in flat index order. A tensor with
/// no elements yields `init` without invoking `combine`.
pub fn reduce<D: DeviceStorage, F: Fn(i64, i64) -> i64>(t: &Tensor<D>, init: i64, combine: F) -> (r:
    i64)
    requires
        t.wf(),
        forall|x: i64, y: i64| call_requires(combine, (x, y)),
    ensures
        fold_steps(combine, t@, init, r),
{
    let n = t.len();
    let mut acc = init;
    let mut k: usize = 0;
    proof {
        assert(t@.subrange(0, 0) =~= Seq::<i64>::empty());
    }
    while k < n
        invariant
            k <= n,
            n == t@.len(),
            forall|x: i64, y: i64| call_requires(combine, (x, y)),
            fold_steps(combine, t@.subrange(0, k as int), init, acc),
        decreases n - k,
    {
        let v = t.element(k);
        let next = combine(acc, v);
        proof {
            assert(t@.subrange(0, k + 1).drop_last() =~= t@.subrange(0, k as int));
            assert(t@.subrange(0, k + 1).last() == t@[k as int]);
            assert(call_ensures(combine, (acc, t@[k as int]), next));
        }
        acc = next;
        k = k + 1;
    }
    proof {
        assert(t@.subrange(0, n as int) =~= t@);
    }
    acc
}

/// Reducing a tensor of zeros by an addition-like combining function
/// from identity 0 yields 0: if every result of `f` is the (wrapping)
/// sum of its arguments and every element of `s` is 0, any fold of `s`
/// from 0 is 0.
pub proof fn lemma_reduce_zeros_is_zero<F: Fn(i64, i64) -> i64>(f: F, s: Seq<i64>, r: i64)
    requires
        forall|x: i64, y: i64, z: i64| call_ensures(f, (x, y), z) ==> z == x.wrapping_add(y),
        forall|i: int| 0 <= i < s.len() ==> #[trigger] s[i] == 0,
        fold_steps(f, s, 0, r),
    ensures
        r == 0,
    decreases s.len(),
{
    if s.len() > 0 {
        let m = choose|m: i64|
            fold_steps(f, s.drop_last(), 0, m) && #[trigger] call_ensures(f, (m, s.last()), r);
        lemma_reduce_zeros_is_zero(f, s.drop_last(), m);
        assert(r == m.wrapping_add(s.last()));
    }
}

/// Reducing a tensor of ones by an addition-like combining function
/// counts its elements: if every result of `f` is the sum of its
/// arguments, every element of `s` is 1, and the count fits the
/// element type, any fold of `s` from an accumulator `acc` is
/// `acc + s.len()`.
pub proof fn lemma_reduce_ones_counts<F: Fn(i64, i64) -> i64>(f: F, s: Seq<i64>, acc: i64, r: i64)
    requires
        forall|x: i64, y: i64, z: i64| call_ensures(f, (x, y), z) ==> z == x.wrapping_add(y),
        forall|i: int| 0 <= i < s.len() ==> #[trigger] s[i] == 1,
        0 <= acc,
        acc + s.len() <= i64::MAX,
        fold_steps(f, s, acc, r),
    ensures
        r == acc + s.len(),
    decreases s.len(),
{
    if s.len() > 0 {
        let m = choose|m: i64|
            fold_steps(f, s.drop_last(), acc, m) && #[trigger] call_ensures(f, (m, s.last()), r);
        lemma_reduce_ones_counts(f, s.drop_last(), acc, m);
        assert(r == m.wrapping_add(1));
    }
}

} // verus!
