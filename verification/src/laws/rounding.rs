//! Rounding keeps boxes that touch touching.

use vstd::prelude::*;
use crate::compute::{absolute, rounded, rounded_extent};
use crate::fixed::{
    is_whole, lemma_round_is_whole, lemma_round_monotone, lemma_round_shift, round, sat_add,
    saturate, LIMIT,
};
use crate::geometry::Point;
use crate::layout::Layout;

verus! {

/// Whether a coordinate lies far enough within the limit that the distance
/// between two such coordinates does not saturate.
pub open spec fn in_range(x: int) -> bool {
    -LIMIT <= 2 * x <= LIMIT
}

/// A box that is not of negative extent is not after rounding either.
pub proof fn lemma_rounded_extent_is_not_negative(abs: i64, size: i64)
    requires
        size >= 0,
    ensures
        rounded_extent(abs, size) >= 0,
{
    lemma_round_monotone(saturate(abs as int), sat_add(abs, size));
    lemma_round_is_whole(abs);
    lemma_round_is_whole(sat_add(abs, size));
}

/// The extent of a box after rounding is a whole number of pixels.
pub proof fn lemma_rounded_extent_is_whole(abs: i64, size: i64)
    ensures
        is_whole(rounded_extent(abs, size)),
        -LIMIT <= rounded_extent(abs, size) <= LIMIT,
{
    lemma_round_is_whole(abs);
    lemma_round_is_whole(sat_add(abs, size));
    let far = round(sat_add(abs, size));
    let near = round(abs);
    assert(far % 65536 == 0 && near % 65536 == 0);
    assert((far - near) % 65536 == 0);
}

/// Along one axis: where the far edge of one box is the near edge of
/// another before rounding, it still is after rounding, in the coordinates
/// of the root. `origin` is the unrounded position of the parent, `near`
/// and `size` are the position and extent of the first box within the
/// parent, and the second box starts at `next`.
pub proof fn lemma_far_edge_meets_near_edge(origin: i64, near: i64, size: i64, next: i64)
    requires
        size >= 0,
        next == near + size,
        in_range(origin + near),
        in_range(origin + next),
    ensures
        round(sat_add(origin, near)) + rounded_extent(sat_add(origin, near), size) == round(
            sat_add(origin, next),
        ),
{
    let start = sat_add(origin, near);
    let end = sat_add(start, size);
    assert(end == sat_add(origin, next));
    lemma_round_is_whole(start);
    lemma_round_is_whole(end);
    lemma_round_monotone(start, end);
    lemma_round_monotone(end, (LIMIT / 2) as i64);
    lemma_round_monotone((-LIMIT / 2) as i64, start);
    crate::fixed::lemma_round_of_whole((LIMIT / 2) as i64);
    crate::fixed::lemma_round_of_whole((-LIMIT / 2) as i64);
}

/// Siblings that touch before rounding touch after it.
///
/// Let `a` and `b` be the layouts of two children of one parent before
/// rounding, with `b` starting where `a` ends along an axis, and let
/// `origin` be the unrounded position of the parent in the coordinates of
/// the root. Then in those coordinates the rounded position of `a`, plus
/// the rounded extent of `a`, is the rounded position of `b`: no seam opens
/// between them and they do not overlap. This holds for every position of
/// the parent, whole or not, as long as the edges lie within range.
pub proof fn lemma_touching_siblings_stay_touching(a: Layout, b: Layout, origin: Point<i64>)
    ensures
        a.size.width >= 0 && b.location.x == a.location.x + a.size.width && in_range(
            origin.x + a.location.x,
        ) && in_range(origin.x + b.location.x) ==> round(absolute(origin, a).x) + rounded(
            a,
            absolute(origin, a),
        ).size.width == round(absolute(origin, b).x),
        a.size.height >= 0 && b.location.y == a.location.y + a.size.height && in_range(
            origin.y + a.location.y,
        ) && in_range(origin.y + b.location.y) ==> round(absolute(origin, a).y) + rounded(
            a,
            absolute(origin, a),
        ).size.height == round(absolute(origin, b).y),
{
    if a.size.width >= 0 && b.location.x == a.location.x + a.size.width && in_range(
        origin.x + a.location.x,
    ) && in_range(origin.x + b.location.x) {
        lemma_far_edge_meets_near_edge(origin.x, a.location.x, a.size.width, b.location.x);
    }
    if a.size.height >= 0 && b.location.y == a.location.y + a.size.height && in_range(
        origin.y + a.location.y,
    ) && in_range(origin.y + b.location.y) {
        lemma_far_edge_meets_near_edge(origin.y, a.location.y, a.size.height, b.location.y);
    }
}

/// Along one axis: under a parent at a whole, non-negative position, the
/// rounded location of a box plus its rounded extent is the rounded location
/// of a box that starts where it ends; locations and extent not negative.
pub proof fn lemma_rounded_edges_meet(origin: i64, near: i64, size: i64, next: i64)
    requires
        is_whole(origin),
        0 <= origin,
        0 <= near,
        0 <= size,
        next == near + size,
        in_range(origin + next),
    ensures
        round(near) + rounded_extent(sat_add(origin, near), size) == round(next),
{
    lemma_far_edge_meets_near_edge(origin, near, size, next);
    lemma_round_shift(origin, near);
    lemma_round_shift(origin, next);
}

/// Siblings that touch before rounding have layouts that touch after it,
/// under a parent at a whole position.
///
/// Let `a` and `b` be the layouts of two children of one parent before
/// rounding, with `b` starting where `a` ends along an axis, and let the
/// unrounded position `origin` of the parent in the coordinates of the root
/// be a whole number of pixels. Then, with no coordinate negative, the
/// rounded location of `a` plus its rounded size is the rounded location of
/// `b`. Under a parent at a fractional position this can fail by a pixel,
/// because locations are rounded relative to the parent and sizes in the
/// coordinates of the root.
pub proof fn lemma_touching_siblings_have_touching_layouts(a: Layout, b: Layout, origin: Point<i64>)
    ensures
        is_whole(origin.x) && origin.x >= 0 && a.location.x >= 0 && a.size.width >= 0
            && b.location.x == a.location.x + a.size.width && in_range(origin.x + b.location.x)
            ==> rounded(a, absolute(origin, a)).location.x + rounded(
            a,
            absolute(origin, a),
        ).size.width == rounded(b, absolute(origin, b)).location.x,
        is_whole(origin.y) && origin.y >= 0 && a.location.y >= 0 && a.size.height >= 0
            && b.location.y == a.location.y + a.size.height && in_range(origin.y + b.location.y)
            ==> rounded(a, absolute(origin, a)).location.y + rounded(
            a,
            absolute(origin, a),
        ).size.height == rounded(b, absolute(origin, b)).location.y,
{
    if is_whole(origin.x) && origin.x >= 0 && a.location.x >= 0 && a.size.width >= 0
        && b.location.x == a.location.x + a.size.width && in_range(origin.x + b.location.x) {
        lemma_rounded_edges_meet(origin.x, a.location.x, a.size.width, b.location.x);
    }
    if is_whole(origin.y) && origin.y >= 0 && a.location.y >= 0 && a.size.height >= 0
        && b.location.y == a.location.y + a.size.height && in_range(origin.y + b.location.y) {
        lemma_rounded_edges_meet(origin.y, a.location.y, a.size.height, b.location.y);
    }
}

} // verus!
