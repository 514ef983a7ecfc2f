//! The scalar fold: one running minimum and one running maximum.

use vstd::prelude::*;
use crate::bits::{lt, less_than, greater_than, INFINITY, NEG_INFINITY};
use crate::extent::{is_range_of, fold_extends};

verus! {

/// The running minimum after one more sample: the sample where it is less
/// than the minimum so far, else the minimum so far. A sample that is not a
/// number is less than nothing and leaves the minimum as it was.
pub open spec fn min_step(acc: u32, x: u32) -> u32 {
    if lt(x, acc) {
        x
    } else {
        acc
    }
}

/// The running maximum after one more sample.
pub open spec fn max_step(acc: u32, x: u32) -> u32 {
    if lt(acc, x) {
        x
    } else {
        acc
    }
}

/// The running minimum after the samples of `s`, taken in order from `init`.
pub open spec fn fold_min(s: Seq<u32>, init: u32) -> u32
    decreases s.len(),
{
    if s.len() == 0 {
        init
    } else {
        min_step(fold_min(s.drop_last(), init), s.last())
    }
}

/// The running maximum after the samples of `s`, taken in order from `init`.
pub open spec fn fold_max(s: Seq<u32>, init: u32) -> u32
    decreases s.len(),
{
    if s.len() == 0 {
        init
    } else {
        max_step(fold_max(s.drop_last(), init), s.last())
    }
}

/// Both folds of `s`, carried on from the pair `init`.
pub open spec fn fold_range(s: Seq<u32>, init: (u32, u32)) -> (u32, u32) {
    (fold_min(s, init.0), fold_max(s, init.1))
}

/// What the scalar fold returns on `s`: both folds, started from the
/// infinities, which are handed back untouched where `s` holds no number.
pub open spec fn scalar_range(s: Seq<u32>) -> (u32, u32) {
    fold_range(s, (INFINITY, NEG_INFINITY))
}

/// Folding one sample more is one step from the fold so far.
pub proof fn fold_push(s: Seq<u32>, x: u32, init: u32)
    ensures
        fold_min(s.push(x), init) == min_step(fold_min(s, init), x),
        fold_max(s.push(x), init) == max_step(fold_max(s, init), x),
{
    assert(s.push(x).drop_last() =~= s);
}

/// Carries a running minimum and maximum over the samples of `slice`.
pub fn min_max_slice(slice: &[u32], min: u32, max: u32) -> (r: (u32, u32))
    ensures
        r == fold_range(slice@, (min, max)),
{
    let mut lo: u32 = min;
    let mut hi: u32 = max;
    let mut i: usize = 0;
    while i < slice.len()
        invariant
            i <= slice@.len(),
            lo == fold_min(slice@.take(i as int), min),
            hi == fold_max(slice@.take(i as int), max),
        decreases slice@.len() - i,
    {
        let value: u32 = slice[i];
        proof {
            fold_push(slice@.take(i as int), value, min);
            fold_push(slice@.take(i as int), value, max);
            assert(slice@.take(i as int).push(value) =~= slice@.take(i + 1));
        }
        if less_than(value, lo) {
            lo = value;
        }
        if greater_than(value, hi) {
            hi = value;
        }
        i += 1;
    }
    assert(slice@.take(i as int) =~= slice@);
    (lo, hi)
}

/// The scalar fold arrives at the range of its input.
pub proof fn scalar_range_is_range(s: Seq<u32>)
    ensures
        is_range_of(s, scalar_range(s)),
{
    fold_extends(Seq::empty(), (INFINITY, NEG_INFINITY), s);
    assert(Seq::<u32>::empty() + s =~= s);
}

/// The range of `image` by the scalar strategy: one pass, one running
/// minimum and one running maximum, both started from the infinities. On an
/// input without a number, the empty one among them, the infinities come
/// back as they were: positive infinity as the minimum, negative infinity
/// as the maximum.
pub fn range(image: &[u32]) -> (r: (u32, u32))
    ensures
        r == scalar_range(image@),
        is_range_of(image@, r),
{
    let mut min: u32 = INFINITY;
    let mut max: u32 = NEG_INFINITY;
    let mut i: usize = 0;
    while i < image.len()
        invariant
            i <= image@.len(),
            min == fold_min(image@.take(i as int), INFINITY),
            max == fold_max(image@.take(i as int), NEG_INFINITY),
        decreases image@.len() - i,
    {
        let value: u32 = image[i];
        proof {
            fold_push(image@.take(i as int), value, INFINITY);
            fold_push(image@.take(i as int), value, NEG_INFINITY);
            assert(image@.take(i as int).push(value) =~= image@.take(i + 1));
        }
        if less_than(value, min) {
            min = value;
        }
        if greater_than(value, max) {
            max = value;
        }
        i += 1;
    }
    proof {
        assert(image@.take(i as int) =~= image@);
        scalar_range_is_range(image@);
    }
    (min, max)
}

} // verus!
