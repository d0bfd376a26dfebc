//! Helpers shared by the layout algorithms: the axis algebra and the
//! distribution of free space.

use vstd::prelude::*;
use crate::fixed::{max, mul_div, sat_add, sat_sub};
use crate::geometry::{Rect, Size};
use crate::style::{AlignContent, JustifyContent};

verus! {

/// The dimension of a size along the main axis.
pub open spec fn spec_main_of<T: Copy>(s: Size<T>, row: bool) -> T {
    if row {
        s.width
    } else {
        s.height
    }
}

/// The dimension of a size along the main axis.
#[verifier::when_used_as_spec(spec_main_of)]
pub fn main_of<T: Copy>(s: Size<T>, row: bool) -> (r: T)
    ensures
        r == spec_main_of(s, row),
{
    if row {
        s.width
    } else {
        s.height
    }
}

/// The dimension of a size along the cross axis.
pub open spec fn spec_cross_of<T: Copy>(s: Size<T>, row: bool) -> T {
    if row {
        s.height
    } else {
        s.width
    }
}

/// The dimension of a size along the cross axis.
#[verifier::when_used_as_spec(spec_cross_of)]
pub fn cross_of<T: Copy>(s: Size<T>, row: bool) -> (r: T)
    ensures
        r == spec_cross_of(s, row),
{
    if row {
        s.height
    } else {
        s.width
    }
}

/// The size with the given dimensions along the main and the cross axis.
pub open spec fn spec_from_axes<T: Copy>(row: bool, main: T, cross: T) -> Size<T> {
    if row {
        Size { width: main, height: cross }
    } else {
        Size { width: cross, height: main }
    }
}

/// The size with the given dimensions along the main and the cross axis.
#[verifier::when_used_as_spec(spec_from_axes)]
pub fn from_axes<T: Copy>(row: bool, main: T, cross: T) -> (r: Size<T>)
    ensures
        r == spec_from_axes(row, main, cross),
{
    if row {
        Size { width: main, height: cross }
    } else {
        Size { width: cross, height: main }
    }
}

/// The edge at which the main axis starts.
pub open spec fn spec_main_start<T: Copy>(r: Rect<T>, row: bool) -> T {
    if row {
        r.left
    } else {
        r.top
    }
}

/// The edge at which the main axis starts.
#[verifier::when_used_as_spec(spec_main_start)]
pub fn main_start<T: Copy>(r: Rect<T>, row: bool) -> (e: T)
    ensures
        e == spec_main_start(r, row),
{
    if row {
        r.left
    } else {
        r.top
    }
}

/// The edge at which the main axis ends.
pub open spec fn spec_main_end<T: Copy>(r: Rect<T>, row: bool) -> T {
    if row {
        r.right
    } else {
        r.bottom
    }
}

/// The edge at which the main axis ends.
#[verifier::when_used_as_spec(spec_main_end)]
pub fn main_end<T: Copy>(r: Rect<T>, row: bool) -> (e: T)
    ensures
        e == spec_main_end(r, row),
{
    if row {
        r.right
    } else {
        r.bottom
    }
}

/// The edge at which the cross axis starts.
pub open spec fn spec_cross_start<T: Copy>(r: Rect<T>, row: bool) -> T {
    if row {
        r.top
    } else {
        r.left
    }
}

/// The edge at which the cross axis starts.
#[verifier::when_used_as_spec(spec_cross_start)]
pub fn cross_start<T: Copy>(r: Rect<T>, row: bool) -> (e: T)
    ensures
        e == spec_cross_start(r, row),
{
    if row {
        r.top
    } else {
        r.left
    }
}

/// The edge at which the cross axis ends.
pub open spec fn spec_cross_end<T: Copy>(r: Rect<T>, row: bool) -> T {
    if row {
        r.bottom
    } else {
        r.right
    }
}

/// The edge at which the cross axis ends.
#[verifier::when_used_as_spec(spec_cross_end)]
pub fn cross_end<T: Copy>(r: Rect<T>, row: bool) -> (e: T)
    ensures
        e == spec_cross_end(r, row),
{
    if row {
        r.bottom
    } else {
        r.right
    }
}

/// The sum of the two edges along the main axis.
pub open spec fn spec_main_sum(r: Rect<i64>, row: bool) -> i64 {
    sat_add(main_start(r, row), main_end(r, row))
}

/// The sum of the two edges along the main axis.
#[verifier::when_used_as_spec(spec_main_sum)]
pub fn main_sum(r: Rect<i64>, row: bool) -> (s: i64)
    ensures
        s == spec_main_sum(r, row),
{
    sat_add(main_start(r, row), main_end(r, row))
}

/// The sum of the two edges along the cross axis.
pub open spec fn spec_cross_sum(r: Rect<i64>, row: bool) -> i64 {
    sat_add(cross_start(r, row), cross_end(r, row))
}

/// The sum of the two edges along the cross axis.
#[verifier::when_used_as_spec(spec_cross_sum)]
pub fn cross_sum(r: Rect<i64>, row: bool) -> (s: i64)
    ensures
        s == spec_cross_sum(r, row),
{
    sat_add(cross_start(r, row), cross_end(r, row))
}

/// How free space is shared out among the items of a line, or among the
/// lines of a container.
#[derive(Clone, Copy, Debug, PartialEq, Eq, Structural)]
pub enum Distribution {
    /// All free space follows the last item.
    Start,
    /// All free space precedes the first item.
    End,
    /// Half of the free space precedes the first item.
    Center,
    /// The free space is shared equally between neighbours.
    SpaceBetween,
    /// Each item has the same space before and after it, and on the ends.
    SpaceEvenly,
    /// Each item has half a share of space on either side.
    SpaceAround,
}

/// The way `justify_content` shares out space; in a reversed direction the
/// flex-relative values change ends.
pub open spec fn spec_justify_distribution(justify: JustifyContent, reverse: bool) -> Distribution {
    match justify {
        JustifyContent::Start => Distribution::Start,
        JustifyContent::End => Distribution::End,
        JustifyContent::FlexStart => if reverse {
            Distribution::End
        } else {
            Distribution::Start
        },
        JustifyContent::FlexEnd => if reverse {
            Distribution::Start
        } else {
            Distribution::End
        },
        JustifyContent::Center => Distribution::Center,
        JustifyContent::SpaceBetween => Distribution::SpaceBetween,
        JustifyContent::SpaceEvenly => Distribution::SpaceEvenly,
        JustifyContent::SpaceAround => Distribution::SpaceAround,
    }
}

/// The way `justify_content` shares out space.
#[verifier::when_used_as_spec(spec_justify_distribution)]
pub fn justify_distribution(justify: JustifyContent, reverse: bool) -> (d: Distribution)
    ensures
        d == spec_justify_distribution(justify, reverse),
{
    match justify {
        JustifyContent::Start => Distribution::Start,
        JustifyContent::End => Distribution::End,
        JustifyContent::FlexStart => if reverse {
            Distribution::End
        } else {
            Distribution::Start
        },
        JustifyContent::FlexEnd => if reverse {
            Distribution::Start
        } else {
            Distribution::End
        },
        JustifyContent::Center => Distribution::Center,
        JustifyContent::SpaceBetween => Distribution::SpaceBetween,
        JustifyContent::SpaceEvenly => Distribution::SpaceEvenly,
        JustifyContent::SpaceAround => Distribution::SpaceAround,
    }
}

/// The way `align_content` shares out space between lines; with reversed
/// wrapping the flex-relative values change ends. `Stretch` leaves the lines
/// at the start.
pub open spec fn spec_content_distribution(align: AlignContent, reverse: bool) -> Distribution {
    match align {
        AlignContent::Start => Distribution::Start,
        AlignContent::End => Distribution::End,
        AlignContent::FlexStart => if reverse {
            Distribution::End
        } else {
            Distribution::Start
        },
        AlignContent::FlexEnd => if reverse {
            Distribution::Start
        } else {
            Distribution::End
        },
        AlignContent::Center => Distribution::Center,
        AlignContent::Stretch => if reverse {
            Distribution::End
        } else {
            Distribution::Start
        },
        AlignContent::SpaceBetween => Distribution::SpaceBetween,
        AlignContent::SpaceEvenly => Distribution::SpaceEvenly,
        AlignContent::SpaceAround => Distribution::SpaceAround,
    }
}

/// The way `align_content` shares out space between lines.
#[verifier::when_used_as_spec(spec_content_distribution)]
pub fn content_distribution(align: AlignContent, reverse: bool) -> (d: Distribution)
    ensures
        d == spec_content_distribution(align, reverse),
{
    match align {
        AlignContent::Start => Distribution::Start,
        AlignContent::End => Distribution::End,
        AlignContent::FlexStart => if reverse {
            Distribution::End
        } else {
            Distribution::Start
        },
        AlignContent::FlexEnd => if reverse {
            Distribution::Start
        } else {
            Distribution::End
        },
        AlignContent::Center => Distribution::Center,
        AlignContent::Stretch => if reverse {
            Distribution::End
        } else {
            Distribution::Start
        },
        AlignContent::SpaceBetween => Distribution::SpaceBetween,
        AlignContent::SpaceEvenly => Distribution::SpaceEvenly,
        AlignContent::SpaceAround => Distribution::SpaceAround,
    }
}

/// The free space that lies before the item of the given `rank` (counted
/// from the start edge) among `total` items, all the gaps before it taken
/// together. Negative free space is not shared out.
pub open spec fn spec_space_before(d: Distribution, free: i64, total: i64, rank: i64) -> i64 {
    let space = max(free, 0);
    match d {
        Distribution::Start => 0,
        Distribution::End => space,
        Distribution::Center => mul_div(space, 1, 2),
        Distribution::SpaceBetween => if total > 1 {
            mul_div(space, rank, sat_sub(total, 1))
        } else {
            0
        },
        Distribution::SpaceEvenly => mul_div(
            space,
            sat_add(rank, 1),
            sat_add(total, 1),
        ),
        Distribution::SpaceAround => mul_div(
            space,
            sat_add(sat_add(rank, rank), 1),
            sat_add(total, total),
        ),
    }
}

/// The free space that lies before the item of the given `rank` among
/// `total` items.
#[verifier::when_used_as_spec(spec_space_before)]
pub fn space_before(d: Distribution, free: i64, total: i64, rank: i64) -> (r: i64)
    ensures
        r == spec_space_before(d, free, total, rank),
{
    let space = max(free, 0);
    match d {
        Distribution::Start => 0,
        Distribution::End => space,
        Distribution::Center => mul_div(space, 1, 2),
        Distribution::SpaceBetween => if total > 1 {
            mul_div(space, rank, sat_sub(total, 1))
        } else {
            0
        },
        Distribution::SpaceEvenly => mul_div(
            space,
            sat_add(rank, 1),
            sat_add(total, 1),
        ),
        Distribution::SpaceAround => mul_div(
            space,
            sat_add(sat_add(rank, rank), 1),
            sat_add(total, total),
        ),
    }
}

} // verus!
