//! What holds of the four strategies together.

use vstd::prelude::*;
use crate::bits::{nan, key, same_value, INFINITY, NEG_INFINITY};
use crate::extent::{has_number, is_range_of, range_is_unique};
use crate::lanes::{lane_range, lane_range_is_range};
use crate::scalar::{range, scalar_range, scalar_range_is_range};
use crate::strategies::{
    chunked_range,
    chunked_range_is_range,
    range_simd,
    range_simd_friendly,
    range_simd_intrinsics,
    range_simd_split,
    split_range,
    split_range_is_range,
};

verus! {

/// Two pairs that are the same minimum and the same maximum as values.
pub open spec fn same_range(a: (u32, u32), b: (u32, u32)) -> bool {
    same_value(a.0, b.0) && same_value(a.1, b.1)
}

/// Whether `s` holds a zero of each sign.
pub open spec fn has_both_zeros(s: Seq<u32>) -> bool {
    s.contains(0u32) && s.contains(0x8000_0000u32)
}

/// On every input, and wherever the boundary of the aligned middle lies, the
/// four strategies return the same minimum and the same maximum as values.
/// They return the same patterns too, unless the input holds a zero of each
/// sign.
pub proof fn strategies_agree(s: Seq<u32>, offset: int)
    requires
        0 <= offset,
    ensures
        same_range(scalar_range(s), lane_range(s)),
        same_range(scalar_range(s), chunked_range(s)),
        same_range(scalar_range(s), split_range(s, offset)),
        !has_both_zeros(s) ==> lane_range(s) == scalar_range(s) && chunked_range(s)
            == scalar_range(s) && split_range(s, offset) == scalar_range(s),
{
    scalar_range_is_range(s);
    lane_range_is_range(s);
    chunked_range_is_range(s);
    split_range_is_range(s, offset);
    range_is_unique(s, scalar_range(s), lane_range(s));
    range_is_unique(s, scalar_range(s), chunked_range(s));
    range_is_unique(s, scalar_range(s), split_range(s, offset));
}

/// The range of an input of which every sample is a number, and which is not
/// empty, lies around every sample, and both its ends are samples.
pub proof fn range_bounds_every_sample(s: Seq<u32>, r: (u32, u32))
    requires
        is_range_of(s, r),
        s.len() > 0,
        forall|i: int| 0 <= i < s.len() ==> !nan(#[trigger] s[i]),
    ensures
        forall|i: int| 0 <= i < s.len() ==> key(r.0) <= key(#[trigger] s[i]) <= key(r.1),
        s.contains(r.0),
        s.contains(r.1),
{
    assert(!nan(s[0]));
}

/// The range of the empty input is the pair of infinities, positive as the
/// minimum and negative as the maximum, by every strategy.
pub proof fn range_of_nothing(offset: int)
    requires
        0 <= offset,
    ensures
        scalar_range(Seq::empty()) == (INFINITY, NEG_INFINITY),
        lane_range(Seq::empty()) == (INFINITY, NEG_INFINITY),
        chunked_range(Seq::empty()) == (INFINITY, NEG_INFINITY),
        split_range(Seq::empty(), offset) == (INFINITY, NEG_INFINITY),
{
    let s = Seq::<u32>::empty();
    scalar_range_is_range(s);
    lane_range_is_range(s);
    chunked_range_is_range(s);
    split_range_is_range(s, offset);
}

/// The range of a single sample `x` is `(x, x)`, pattern for pattern, by
/// every strategy; unless `x` is not a number, when it is the pair of
/// infinities.
pub proof fn range_of_one(x: u32, offset: int)
    requires
        0 <= offset,
    ensures
        scalar_range(seq![x]) == one_sample_range(x),
        lane_range(seq![x]) == one_sample_range(x),
        chunked_range(seq![x]) == one_sample_range(x),
        split_range(seq![x], offset) == one_sample_range(x),
{
    let s = seq![x];
    scalar_range_is_range(s);
    lane_range_is_range(s);
    chunked_range_is_range(s);
    split_range_is_range(s, offset);
    assert(s[0] == x);
    assert(has_number(s) == !nan(x));
}

/// The range of the input that holds `x` alone.
pub open spec fn one_sample_range(x: u32) -> (u32, u32) {
    if nan(x) {
        (INFINITY, NEG_INFINITY)
    } else {
        (x, x)
    }
}

/// Two calls of one strategy on the same input return the same pair: what
/// each returns is fixed by the samples, and for the aligned middle with a
/// given boundary by the samples and the boundary.
pub proof fn calls_repeat(image: &[u32], offset: usize, first: (u32, u32), second: (u32, u32))
    ensures
        call_ensures(range, (image,), first) && call_ensures(range, (image,), second) ==> first
            == second,
        call_ensures(range_simd_friendly, (image,), first) && call_ensures(
            range_simd_friendly,
            (image,),
            second,
        ) ==> first == second,
        call_ensures(range_simd_intrinsics, (image,), first) && call_ensures(
            range_simd_intrinsics,
            (image,),
            second,
        ) ==> first == second,
        call_ensures(range_simd_split, (image, offset), first) && call_ensures(
            range_simd_split,
            (image, offset),
            second,
        ) ==> first == second,
{
}

/// Two calls of the aligned middle that finds its own boundary return, on
/// the same input, the same minimum and the same maximum as values, and the
/// same patterns unless the input holds a zero of each sign.
pub proof fn range_simd_repeats(image: &[u32], first: (u32, u32), second: (u32, u32))
    requires
        call_ensures(range_simd, (image,), first),
        call_ensures(range_simd, (image,), second),
    ensures
        same_range(first, second),
        !has_both_zeros(image@) ==> first == second,
{
    range_is_unique(image@, first, second);
}

} // verus!
