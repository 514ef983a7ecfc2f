//! The three strategies that work in lanes. They differ in what they do with
//! the samples that do not fill a chunk of eight.

use vstd::prelude::*;
use vstd::arithmetic::power2::{pow2, lemma2_to64};
use vstd::slice::slice_subrange;
use crate::extent::{is_range_of, fold_extends, range_of_same_samples};
use crate::lanes::{lane_range, lane_range_is_range, lane_fold, reduce_min, reduce_max, LANES};
use crate::scalar::{fold_range, min_max_slice};

verus! {

/// What the strategy of exact chunks returns on `s`: the lanes take the
/// longest prefix whose length is a multiple of eight, and the scalar fold
/// carries their result over the samples that are left.
pub open spec fn chunked_range(s: Seq<u32>) -> (u32, u32) {
    let full = s.len() - s.len() % 8;
    fold_range(s.skip(full), lane_range(s.take(full)))
}

/// Where the head ends when the first boundary lies `offset` samples into a
/// sequence of `n`: at the boundary, or at the end where the sequence does
/// not reach it.
pub open spec fn head_end(n: int, offset: int) -> int {
    if offset < n {
        offset
    } else {
        n
    }
}

/// Where the tail begins: after as many chunks of eight as fit behind the
/// head.
pub open spec fn tail_start(n: int, offset: int) -> int {
    let head = head_end(n, offset);
    n - (n - head) % 8
}

/// What the strategy of an aligned middle returns on `s` when the first
/// boundary lies `offset` samples in: the lanes take the middle, then the
/// scalar fold carries their result over the head and then over the tail.
pub open spec fn split_range(s: Seq<u32>, offset: int) -> (u32, u32) {
    let head = head_end(s.len() as int, offset);
    let tail = tail_start(s.len() as int, offset);
    fold_range(s.skip(tail), fold_range(s.take(head), lane_range(s.subrange(head, tail))))
}

/// Exact chunks arrive at the range of their input.
pub proof fn chunked_range_is_range(s: Seq<u32>)
    ensures
        is_range_of(s, chunked_range(s)),
{
    let full = s.len() - s.len() % 8;
    lane_range_is_range(s.take(full));
    fold_extends(s.take(full), lane_range(s.take(full)), s.skip(full));
    assert(s.take(full) + s.skip(full) =~= s);
}

/// An aligned middle arrives at the range of its input, wherever the first
/// boundary lies.
pub proof fn split_range_is_range(s: Seq<u32>, offset: int)
    requires
        0 <= offset,
    ensures
        is_range_of(s, split_range(s, offset)),
{
    let head = head_end(s.len() as int, offset);
    let tail = tail_start(s.len() as int, offset);
    let pre = s.take(head);
    let middle = s.subrange(head, tail);
    let post = s.skip(tail);
    let from_lanes = lane_range(middle);
    let from_head = fold_range(pre, from_lanes);
    lane_range_is_range(middle);
    fold_extends(middle, from_lanes, pre);
    fold_extends(middle + pre, from_head, post);
    let t = middle + pre + post;
    assert forall|x: u32| t.contains(x) <==> s.contains(x) by {
        if t.contains(x) {
            let i = choose|i: int| 0 <= i < t.len() && t[i] == x;
            if i < middle.len() {
                assert(s[head + i] == x);
            } else if i < middle.len() + pre.len() {
                assert(s[i - middle.len()] == x);
            } else {
                assert(s[i] == x);
            }
        }
        if s.contains(x) {
            let i = choose|i: int| 0 <= i < s.len() && s[i] == x;
            if i < head {
                assert(t[middle.len() + i] == x);
            } else if i < tail {
                assert(t[i - head] == x);
            } else {
                assert(t[i] == x);
            }
        }
    }
    range_of_same_samples(t, s, split_range(s, offset));
}

/// The range of `image` by the strategy of lane arrays: the samples are
/// taken in chunks of eight, each sample into the lane of its place in the
/// chunk; a last chunk of fewer than eight goes the same way into the first
/// lanes; then the lanes are reduced.
pub fn range_simd_friendly(image: &[u32]) -> (r: (u32, u32))
    ensures
        r == lane_range(image@),
        is_range_of(image@, r),
{
    let (mins, maxs) = lane_fold(image);
    proof {
        lane_range_is_range(image@);
    }
    (reduce_min(&mins), reduce_max(&maxs))
}

/// The range of `image` by the strategy of exact chunks: the lanes take
/// every full chunk of eight and are reduced, and the scalar fold carries
/// the reduced pair over the remainder of fewer than eight samples.
pub fn range_simd_intrinsics(image: &[u32]) -> (r: (u32, u32))
    ensures
        r == chunked_range(image@),
        is_range_of(image@, r),
{
    let n: usize = image.len();
    let full: usize = n - n % LANES;
    let chunks: &[u32] = slice_subrange(image, 0, full);
    let remainder: &[u32] = slice_subrange(image, full, n);
    let (mins, maxs) = lane_fold(chunks);
    let min: u32 = reduce_min(&mins);
    let max: u32 = reduce_max(&maxs);
    proof {
        assert(chunks@ =~= image@.take(full as int));
        assert(remainder@ =~= image@.skip(full as int));
        chunked_range_is_range(image@);
    }
    min_max_slice(remainder, min, max)
}

/// The range of `image` by the strategy of an aligned middle, with the first
/// boundary `offset` samples in: the lanes take the chunks of eight from the
/// boundary on and are reduced, then the scalar fold carries the reduced
/// pair over the head before the boundary and over the tail behind the last
/// full chunk. An input that does not reach the boundary is all head.
pub fn range_simd_split(image: &[u32], offset: usize) -> (r: (u32, u32))
    ensures
        r == split_range(image@, offset as int),
        is_range_of(image@, r),
{
    let n: usize = image.len();
    let head: usize = if offset < n { offset } else { n };
    let tail: usize = n - (n - head) % LANES;
    let pre: &[u32] = slice_subrange(image, 0, head);
    let middle: &[u32] = slice_subrange(image, head, tail);
    let post: &[u32] = slice_subrange(image, tail, n);
    let (mins, maxs) = lane_fold(middle);
    let min: u32 = reduce_min(&mins);
    let max: u32 = reduce_max(&maxs);
    let (min, max) = min_max_slice(pre, min, max);
    proof {
        assert(pre@ =~= image@.take(head as int));
        assert(post@ =~= image@.skip(tail as int));
        split_range_is_range(image@, offset as int);
    }
    min_max_slice(post, min, max)
}

/// The width of eight samples in bytes: the distance between two boundaries.
pub const CHUNK_BYTES: usize = 32;

/// Calls `align_offset` of std on the pointer to the first sample of
/// `image`: the number of samples to step over from there to the next
/// address that is a multiple of `align` bytes. std panics unless `align` is
/// a power of two, and may answer `usize::MAX` where it finds no such step,
/// so nothing is claimed of the result.
#[verifier::external_body]
fn samples_to_boundary(image: &[u32], align: usize) -> (offset: usize)
    requires
        exists|k: nat| align == pow2(k),
{
    image.as_ptr().align_offset(align)
}

/// The range of `image` by the strategy of an aligned middle, split where
/// the samples lie in memory: the head runs up to the first address that is
/// a multiple of 32 bytes. Where that is depends on the place of the input,
/// so the value is that of `split_range` for some boundary; it is the range
/// of the input for every one.
pub fn range_simd(image: &[u32]) -> (r: (u32, u32))
    ensures
        exists|offset: int| 0 <= offset && r == #[trigger] split_range(image@, offset),
        is_range_of(image@, r),
{
    proof {
        lemma2_to64();
        assert(CHUNK_BYTES == pow2(5));
    }
    let offset: usize = samples_to_boundary(image, CHUNK_BYTES);
    range_simd_split(image, offset)
}

} // verus!
