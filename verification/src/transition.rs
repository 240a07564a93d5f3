use vstd::prelude::*;
use crate::grid::min_len;

verus! {

/// The segment of a multi-point path that a position falls in: its index
/// `whole` (the whole part of the position scaled over the segments) held at
/// the last segment, with the two points that bound it.
pub open spec fn segment_index(point_count: nat, whole: nat) -> nat
    recommends
        point_count >= 2,
{
    if whole <= point_count - 2 { whole } else { (point_count - 2) as nat }
}

/// Pick the segment of `points` that multi-point interpolation blends
/// across: the index `idx` (the whole part `whole` of the scaled position,
/// held at the last segment) and the points at `idx` and `idx + 1`.
pub fn path_segment<T: Copy>(points: &[T], whole: usize) -> (seg: (usize, T, T))
    requires
        points@.len() >= 2,
    ensures
        seg.0 == segment_index(points@.len(), whole as nat),
        whole + 2 <= points@.len() ==> seg.0 == whole,
        whole + 2 > points@.len() ==> seg.0 + 2 == points@.len(),
        seg.0 + 1 < points@.len(),
        seg.1 == points@[seg.0 as int],
        seg.2 == points@[seg.0 + 1],
{
    let last = points.len() - 2;
    let idx = if whole <= last { whole } else { last };
    (idx, points[idx], points[idx + 1])
}

/// Element-wise transition between two arrays: element `i` of the result is
/// `ease(from[i], to[i])`, for each `i` that both arrays hold.
pub fn smooth_transition<T: Copy, F: Fn(T, T) -> T>(from: &[T], to: &[T], ease: F) -> (out: Vec<T>)
    requires
        forall|i: int|
            0 <= i < from@.len() && 0 <= i < to@.len() ==> ease.requires((#[trigger] from@[i], #[trigger] to@[i])),
    ensures
        out@.len() == min_len(from@.len(), to@.len()),
        out@.len() <= from@.len() && out@.len() <= to@.len(),
        out@.len() == from@.len() || out@.len() == to@.len(),
        forall|i: int| 0 <= i < out@.len() ==> ease.ensures((from@[i], to@[i]), #[trigger] out@[i]),
{
    let len = if from.len() <= to.len() { from.len() } else { to.len() };
    let mut out: Vec<T> = Vec::new();
    let mut i: usize = 0;
    while i < len
        invariant
            len == min_len(from@.len(), to@.len()),
            i <= len,
            out@.len() == i,
            forall|k: int|
                0 <= k < from@.len() && 0 <= k < to@.len() ==> ease.requires((#[trigger] from@[k], #[trigger] to@[k])),
            forall|k: int| 0 <= k < i ==> ease.ensures((from@[k], to@[k]), #[trigger] out@[k]),
        decreases len - i,
    {
        let v = ease(from[i], to[i]);
        out.push(v);
        i = i + 1;
    }
    out
}

/// The segment a path position falls in is the one at its whole part
/// while the path has such a segment, and the last segment otherwise.
pub proof fn lemma_segment_index_follows_whole(point_count: nat, whole: nat)
    requires
        point_count >= 2,
    ensures
        whole + 2 <= point_count ==> segment_index(point_count, whole) == whole,
        whole + 2 > point_count ==> segment_index(point_count, whole) + 2 == point_count,
        segment_index(point_count, whole) + 1 < point_count,
{
}

} // verus!
