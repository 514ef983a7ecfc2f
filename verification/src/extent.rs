//! What it means for a pair of patterns to be the range of a sequence of
//! samples, and why a fold arrives at it.

use vstd::prelude::*;
use crate::bits::{nan, key, same_value, key_determines_bits, INFINITY, NEG_INFINITY};
use crate::scalar::{min_step, max_step, fold_min, fold_max};

verus! {

/// Whether at least one sample of `s` is a number.
pub open spec fn has_number(s: Seq<u32>) -> bool {
    exists|i: int| 0 <= i < s.len() && !nan(#[trigger] s[i])
}

/// `m` is the minimum of `s`: a number that is no greater than any number
/// among the samples and is itself one of them. Where no sample is a number
/// it is positive infinity.
pub open spec fn is_min_of(s: Seq<u32>, m: u32) -> bool {
    &&& !nan(m)
    &&& forall|i: int| 0 <= i < s.len() && !nan(#[trigger] s[i]) ==> key(m) <= key(s[i])
    &&& has_number(s) ==> s.contains(m)
    &&& !has_number(s) ==> m == INFINITY
}

/// `m` is the maximum of `s`: a number that is no less than any number among
/// the samples and is itself one of them. Where no sample is a number it is
/// negative infinity.
pub open spec fn is_max_of(s: Seq<u32>, m: u32) -> bool {
    &&& !nan(m)
    &&& forall|i: int| 0 <= i < s.len() && !nan(#[trigger] s[i]) ==> key(s[i]) <= key(m)
    &&& has_number(s) ==> s.contains(m)
    &&& !has_number(s) ==> m == NEG_INFINITY
}

/// `r` is the range of `s`: its minimum and its maximum.
pub open spec fn is_range_of(s: Seq<u32>, r: (u32, u32)) -> bool {
    is_min_of(s, r.0) && is_max_of(s, r.1)
}

/// One more sample, taken in by one step, keeps a minimum a minimum.
pub proof fn min_step_extends(s: Seq<u32>, m: u32, x: u32)
    requires
        is_min_of(s, m),
    ensures
        is_min_of(s.push(x), min_step(m, x)),
{
    let t = s.push(x);
    let r = min_step(m, x);
    assert(t[s.len() as int] == x);
    assert forall|i: int| 0 <= i < s.len() implies t[i] == s[i] by {}
    if has_number(s) {
        let w = choose|i: int| 0 <= i < s.len() && !nan(#[trigger] s[i]);
        assert(!nan(t[w]));
        let at = choose|i: int| 0 <= i < s.len() && s[i] == m;
        assert(t[at] == m);
    }
    if !nan(x) {
        assert(!nan(t[s.len() as int]));
    }
    if has_number(t) {
        let w = choose|i: int| 0 <= i < t.len() && !nan(#[trigger] t[i]);
        if w < s.len() {
            assert(!nan(s[w]));
        }
        assert(t.contains(r));
    }
}

/// One more sample, taken in by one step, keeps a maximum a maximum.
pub proof fn max_step_extends(s: Seq<u32>, m: u32, x: u32)
    requires
        is_max_of(s, m),
    ensures
        is_max_of(s.push(x), max_step(m, x)),
{
    let t = s.push(x);
    let r = max_step(m, x);
    assert(t[s.len() as int] == x);
    assert forall|i: int| 0 <= i < s.len() implies t[i] == s[i] by {}
    if has_number(s) {
        let w = choose|i: int| 0 <= i < s.len() && !nan(#[trigger] s[i]);
        assert(!nan(t[w]));
        let at = choose|i: int| 0 <= i < s.len() && s[i] == m;
        assert(t[at] == m);
    }
    if !nan(x) {
        assert(!nan(t[s.len() as int]));
    }
    if has_number(t) {
        let w = choose|i: int| 0 <= i < t.len() && !nan(#[trigger] t[i]);
        if w < s.len() {
            assert(!nan(s[w]));
        }
        assert(t.contains(r));
    }
}

/// Folding further samples into the range of `a` gives the range of `a`
/// followed by those samples.
pub proof fn fold_extends(a: Seq<u32>, r: (u32, u32), b: Seq<u32>)
    requires
        is_range_of(a, r),
    ensures
        is_range_of(a + b, (fold_min(b, r.0), fold_max(b, r.1))),
    decreases b.len(),
{
    if b.len() == 0 {
        assert(a + b =~= a);
    } else {
        let front = b.drop_last();
        fold_extends(a, r, front);
        min_step_extends(a + front, fold_min(front, r.0), b.last());
        max_step_extends(a + front, fold_max(front, r.1), b.last());
        assert((a + front).push(b.last()) =~= a + b);
    }
}

/// The range of a sequence is the range of every sequence with the same
/// samples, in whatever order and number.
pub proof fn range_of_same_samples(s: Seq<u32>, t: Seq<u32>, r: (u32, u32))
    requires
        is_range_of(s, r),
        forall|x: u32| s.contains(x) <==> t.contains(x),
    ensures
        is_range_of(t, r),
{
    assert forall|i: int| 0 <= i < t.len() implies s.contains(#[trigger] t[i]) by {
        assert(t.contains(t[i]));
    }
    assert forall|i: int| 0 <= i < s.len() implies t.contains(#[trigger] s[i]) by {
        assert(s.contains(s[i]));
    }
    if has_number(s) {
        let w = choose|i: int| 0 <= i < s.len() && !nan(#[trigger] s[i]);
        assert(t.contains(s[w]));
        let at = choose|i: int| 0 <= i < t.len() && t[i] == s[w];
        assert(!nan(t[at]));
    }
    if has_number(t) {
        let w = choose|i: int| 0 <= i < t.len() && !nan(#[trigger] t[i]);
        assert(s.contains(t[w]));
        let at = choose|i: int| 0 <= i < s.len() && s[i] == t[w];
        assert(!nan(s[at]));
    }
    assert forall|i: int| 0 <= i < t.len() && !nan(#[trigger] t[i]) implies key(r.0) <= key(t[i])
        && key(t[i]) <= key(r.1) by {
        assert(s.contains(t[i]));
        let at = choose|j: int| 0 <= j < s.len() && s[j] == t[i];
        assert(!nan(s[at]));
    }
}

/// Two ranges of one sequence are the same pair of values. They are the same
/// pair of patterns too, unless the sequence holds both a positive and a
/// negative zero: these are one value in two patterns, and which of them a
/// fold keeps depends on the order in which it meets them.
pub proof fn range_is_unique(s: Seq<u32>, a: (u32, u32), b: (u32, u32))
    requires
        is_range_of(s, a),
        is_range_of(s, b),
    ensures
        same_value(a.0, b.0),
        same_value(a.1, b.1),
        !(s.contains(0u32) && s.contains(0x8000_0000u32)) ==> a == b,
{
    key_determines_bits(a.0, b.0);
    key_determines_bits(a.1, b.1);
    if has_number(s) {
        let a0 = choose|i: int| 0 <= i < s.len() && s[i] == a.0;
        let b0 = choose|i: int| 0 <= i < s.len() && s[i] == b.0;
        let a1 = choose|i: int| 0 <= i < s.len() && s[i] == a.1;
        let b1 = choose|i: int| 0 <= i < s.len() && s[i] == b.1;
        assert(!nan(s[a0]) && !nan(s[b0]) && !nan(s[a1]) && !nan(s[b1]));
        assert(s.contains(a.0) && s.contains(b.0) && s.contains(a.1) && s.contains(b.1));
    }
}

} // verus!
