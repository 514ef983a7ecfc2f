//! Eight lanes side by side: the samples dealt out in turn to eight running
//! minima and eight running maxima, which are reduced to one pair at the end.

use vstd::prelude::*;
use vstd::slice::slice_subrange;
use crate::bits::{nan, key, less_than, greater_than, INFINITY, NEG_INFINITY};
use crate::extent::{has_number, is_min_of, is_max_of, is_range_of};
use crate::scalar::{min_step, max_step, fold_min, fold_max, fold_push, scalar_range_is_range};

verus! {

/// The number of lanes. The contracts write it as the literal 8.
pub const LANES: usize = 8;

/// How many of the first `n` samples fall into lane `j`.
pub open spec fn lane_len(n: int, j: int) -> int {
    if 0 <= j < n {
        (n - 1 - j) / 8 + 1
    } else {
        0
    }
}

/// The samples of `s` that fall into lane `j`, in order: those at the
/// positions `j`, `j + 8`, `j + 16` and so on.
pub open spec fn lane(s: Seq<u32>, j: int) -> Seq<u32> {
    Seq::new(lane_len(s.len() as int, j) as nat, |k: int| s[j + 8 * k])
}

/// The eight running minima after the samples of `s`: in each lane the
/// scalar fold of that lane's samples.
pub open spec fn lane_mins(s: Seq<u32>) -> Seq<u32> {
    Seq::new(8, |j: int| fold_min(lane(s, j), INFINITY))
}

/// The eight running maxima after the samples of `s`.
pub open spec fn lane_maxs(s: Seq<u32>) -> Seq<u32> {
    Seq::new(8, |j: int| fold_max(lane(s, j), NEG_INFINITY))
}

/// What the lanes give on `s`: the eight minima and the eight maxima, each
/// folded to one value from lane 0 upwards.
pub open spec fn lane_range(s: Seq<u32>) -> (u32, u32) {
    (fold_min(lane_mins(s), INFINITY), fold_max(lane_maxs(s), NEG_INFINITY))
}

/// Taking in a chunk of up to eight samples that starts at a multiple of
/// eight appends one sample to each lane that the chunk reaches and leaves
/// the other lanes as they were.
pub proof fn lane_after_chunk(s: Seq<u32>, start: int, end: int, j: int)
    requires
        0 <= start <= end <= s.len(),
        start % 8 == 0,
        end - start <= 8,
        0 <= j < 8,
    ensures
        j < end - start ==> lane(s.take(end), j) == lane(s.take(start), j).push(s[start + j]),
        j >= end - start ==> lane(s.take(end), j) == lane(s.take(start), j),
{
    if j < end - start {
        assert(lane(s.take(end), j) =~= lane(s.take(start), j).push(s[start + j]));
    } else {
        assert(lane(s.take(end), j) =~= lane(s.take(start), j));
    }
}

/// The sample at position `i` sits in the lane of `i`'s remainder by eight,
/// at the place of `i`'s quotient by eight.
pub proof fn sample_in_lane(s: Seq<u32>, i: int)
    requires
        0 <= i < s.len(),
    ensures
        0 <= i / 8 < lane(s, i % 8).len(),
        lane(s, i % 8)[i / 8] == s[i],
{
}

/// The sample at place `k` of lane `j` is the sample at position `j + 8 * k`.
pub proof fn lane_in_samples(s: Seq<u32>, j: int, k: int)
    requires
        0 <= j < 8,
        0 <= k < lane(s, j).len(),
    ensures
        0 <= j + 8 * k < s.len(),
        lane(s, j)[k] == s[j + 8 * k],
{
}

/// The least of the lanes' minima is the minimum of the whole sequence.
pub proof fn lane_min_is_min(s: Seq<u32>)
    ensures
        is_min_of(s, lane_range(s).0),
{
    let mins = lane_mins(s);
    let r = fold_min(mins, INFINITY);
    scalar_range_is_range(mins);
    assert forall|j: int| 0 <= j < 8 implies is_min_of(lane(s, j), #[trigger] mins[j]) by {
        scalar_range_is_range(lane(s, j));
    }
    assert(!nan(mins[0]));
    assert(mins.contains(r));
    let from = choose|j: int| 0 <= j < mins.len() && mins[j] == r;
    let source = lane(s, from);
    assert(is_min_of(source, mins[from]));
    assert forall|i: int| 0 <= i < s.len() && !nan(#[trigger] s[i]) implies key(r) <= key(s[i])
        && s.contains(r) by {
        let part = lane(s, i % 8);
        sample_in_lane(s, i);
        assert(is_min_of(part, mins[i % 8]));
        assert(!nan(part[i / 8]));
        assert(!nan(mins[i % 8]));
        if has_number(source) {
            let at = choose|k: int| 0 <= k < source.len() && source[k] == r;
            lane_in_samples(s, from, at);
        } else {
            assert(s[i] == r);
        }
    }
    if !has_number(s) && has_number(source) {
        let k = choose|k: int| 0 <= k < source.len() && !nan(#[trigger] source[k]);
        lane_in_samples(s, from, k);
        assert(!nan(s[from + 8 * k]));
    }
}

/// The greatest of the lanes' maxima is the maximum of the whole sequence.
pub proof fn lane_max_is_max(s: Seq<u32>)
    ensures
        is_max_of(s, lane_range(s).1),
{
    let maxs = lane_maxs(s);
    let r = fold_max(maxs, NEG_INFINITY);
    scalar_range_is_range(maxs);
    assert forall|j: int| 0 <= j < 8 implies is_max_of(lane(s, j), #[trigger] maxs[j]) by {
        scalar_range_is_range(lane(s, j));
    }
    assert(!nan(maxs[0]));
    assert(maxs.contains(r));
    let from = choose|j: int| 0 <= j < maxs.len() && maxs[j] == r;
    let source = lane(s, from);
    assert(is_max_of(source, maxs[from]));
    assert forall|i: int| 0 <= i < s.len() && !nan(#[trigger] s[i]) implies key(s[i]) <= key(r)
        && s.contains(r) by {
        let part = lane(s, i % 8);
        sample_in_lane(s, i);
        assert(is_max_of(part, maxs[i % 8]));
        assert(!nan(part[i / 8]));
        assert(!nan(maxs[i % 8]));
        if has_number(source) {
            let at = choose|k: int| 0 <= k < source.len() && source[k] == r;
            lane_in_samples(s, from, at);
        } else {
            assert(s[i] == r);
        }
    }
    if !has_number(s) && has_number(source) {
        let k = choose|k: int| 0 <= k < source.len() && !nan(#[trigger] source[k]);
        lane_in_samples(s, from, k);
        assert(!nan(s[from + 8 * k]));
    }
}

/// The lanes arrive at the range of their input.
pub proof fn lane_range_is_range(s: Seq<u32>)
    ensures
        is_range_of(s, lane_range(s)),
{
    lane_min_is_min(s);
    lane_max_is_max(s);
}

/// The minimum lane by lane: each lane that `chunk` reaches takes one step
/// with the chunk's sample for it. Samples of the chunk past the eighth are
/// not looked at.
pub fn lanes_min(acc: [u32; 8], chunk: &[u32]) -> (r: [u32; 8])
    ensures
        forall|j: int|
            0 <= j < 8 ==> r@[j] == (if j < chunk@.len() {
                min_step(acc@[j], chunk@[j])
            } else {
                acc@[j]
            }),
{
    let mut out: [u32; 8] = acc;
    let mut j: usize = 0;
    while j < LANES && j < chunk.len()
        invariant
            j <= 8,
            j <= chunk@.len(),
            forall|l: int| 0 <= l < j ==> out@[l] == min_step(acc@[l], chunk@[l]),
            forall|l: int| j <= l < 8 ==> out@[l] == acc@[l],
        decreases 8 - j,
    {
        let value: u32 = chunk[j];
        if less_than(value, out[j]) {
            out[j] = value;
        }
        j += 1;
    }
    out
}

/// The maximum lane by lane, as `lanes_min` takes the minimum.
pub fn lanes_max(acc: [u32; 8], chunk: &[u32]) -> (r: [u32; 8])
    ensures
        forall|j: int|
            0 <= j < 8 ==> r@[j] == (if j < chunk@.len() {
                max_step(acc@[j], chunk@[j])
            } else {
                acc@[j]
            }),
{
    let mut out: [u32; 8] = acc;
    let mut j: usize = 0;
    while j < LANES && j < chunk.len()
        invariant
            j <= 8,
            j <= chunk@.len(),
            forall|l: int| 0 <= l < j ==> out@[l] == max_step(acc@[l], chunk@[l]),
            forall|l: int| j <= l < 8 ==> out@[l] == acc@[l],
        decreases 8 - j,
    {
        let value: u32 = chunk[j];
        if greater_than(value, out[j]) {
            out[j] = value;
        }
        j += 1;
    }
    out
}

/// The least of the eight lanes, folded from lane 0 upwards.
pub fn reduce_min(lanes: &[u32; 8]) -> (r: u32)
    ensures
        r == fold_min(lanes@, INFINITY),
{
    let mut min: u32 = INFINITY;
    let mut j: usize = 0;
    while j < LANES
        invariant
            j <= 8,
            min == fold_min(lanes@.take(j as int), INFINITY),
        decreases 8 - j,
    {
        let value: u32 = lanes[j];
        proof {
            fold_push(lanes@.take(j as int), value, INFINITY);
            assert(lanes@.take(j as int).push(value) =~= lanes@.take(j + 1));
        }
        if less_than(value, min) {
            min = value;
        }
        j += 1;
    }
    assert(lanes@.take(8) =~= lanes@);
    min
}

/// The greatest of the eight lanes, folded from lane 0 upwards.
pub fn reduce_max(lanes: &[u32; 8]) -> (r: u32)
    ensures
        r == fold_max(lanes@, NEG_INFINITY),
{
    let mut max: u32 = NEG_INFINITY;
    let mut j: usize = 0;
    while j < LANES
        invariant
            j <= 8,
            max == fold_max(lanes@.take(j as int), NEG_INFINITY),
        decreases 8 - j,
    {
        let value: u32 = lanes[j];
        proof {
            fold_push(lanes@.take(j as int), value, NEG_INFINITY);
            assert(lanes@.take(j as int).push(value) =~= lanes@.take(j + 1));
        }
        if greater_than(value, max) {
            max = value;
        }
        j += 1;
    }
    assert(lanes@.take(8) =~= lanes@);
    max
}

/// Deals the samples of `body` out to the lanes, a chunk of eight at a time,
/// and returns the eight minima and the eight maxima. A last chunk of fewer
/// than eight samples reaches the first lanes only.
pub fn lane_fold(body: &[u32]) -> (r: ([u32; 8], [u32; 8]))
    ensures
        r.0@ == lane_mins(body@),
        r.1@ == lane_maxs(body@),
{
    let n: usize = body.len();
    let mut mins: [u32; 8] = [INFINITY; 8];
    let mut maxs: [u32; 8] = [NEG_INFINITY; 8];
    let mut start: usize = 0;
    assert(mins@ =~= lane_mins(body@.take(0)));
    assert(maxs@ =~= lane_maxs(body@.take(0)));
    while start < n
        invariant
            n == body@.len(),
            start <= n,
            start % 8 == 0 || start == n,
            mins@ == lane_mins(body@.take(start as int)),
            maxs@ == lane_maxs(body@.take(start as int)),
        decreases n - start,
    {
        let end: usize = if n - start < LANES { n } else { start + LANES };
        let chunk: &[u32] = slice_subrange(body, start, end);
        let ghost before = body@.take(start as int);
        let ghost after = body@.take(end as int);
        let ghost old_mins = mins@;
        let ghost old_maxs = maxs@;
        mins = lanes_min(mins, chunk);
        maxs = lanes_max(maxs, chunk);
        proof {
            assert forall|j: int| 0 <= j < 8 implies mins@[j] == lane_mins(after)[j] && maxs@[j]
                == lane_maxs(after)[j] by {
                lane_after_chunk(body@, start as int, end as int, j);
                if j < end - start {
                    fold_push(lane(before, j), body@[start + j], INFINITY);
                    fold_push(lane(before, j), body@[start + j], NEG_INFINITY);
                }
            }
            assert(mins@ =~= lane_mins(after));
            assert(maxs@ =~= lane_maxs(after));
        }
        start = end;
    }
    assert(body@.take(n as int) =~= body@);
    (mins, maxs)
}

} // verus!
