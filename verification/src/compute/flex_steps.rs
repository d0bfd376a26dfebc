//! The steps of the flexbox algorithm that work on one item or one line at a
//! time, and the passes that apply them to all items or all lines.

use vstd::prelude::*;
use crate::compute::common::{
    cross_end, cross_of, cross_start, cross_sum, from_axes, justify_distribution, main_of,
    main_start, space_before,
};
use crate::compute::flex_model::{
    auto_count, flex_factor, gaps, line_of, line_of_exec, FlexCtx, FlexItem, ItemKind, Line,
};
use crate::fixed::{max, mul_div, sat_add, sat_sub};
use crate::geometry::{clamp, horizontal_sum, unwrap_or, vertical_sum, zero_size, Point, Size};
use crate::style::{resolve_auto, resolve_size, AlignItems, FlexWrap};

verus! {

/// The position of an item's corner along the main axis of the content box.
///
/// Items follow one another in visual order, which in a reversed direction
/// is the reverse of their declared order. An item lies behind the margin
/// boxes of the items before it, the gaps between them and its share of the
/// free space of the line. Where the line has free space and `Auto` margins,
/// those margins take all of it in equal shares; otherwise
/// `justify_content` shares it out.
pub open spec fn spec_main_position(ctx: FlexCtx, item: FlexItem, line: Line) -> i64 {
    let outer = sat_add(item.target_main, crate::compute::common::main_sum(item.margin, ctx.row));
    let rank = if ctx.reverse {
        sat_sub(sat_sub(line.count, 1), item.rank)
    } else {
        item.rank
    };
    let preceding = if ctx.reverse {
        sat_sub(sat_sub(line.targets, item.before), outer)
    } else {
        item.before
    };
    let base = sat_add(preceding, mul_div(ctx.gap_main, rank, 1));
    if line.free > 0 && line.autos > 0 {
        let share = mul_div(line.free, 1, line.autos);
        let autos_preceding = if ctx.reverse {
            sat_sub(sat_sub(line.autos, item.autos_before), auto_count(ctx, item))
        } else {
            item.autos_before
        };
        let own = if main_start(item.margin_auto, ctx.row) {
            share
        } else {
            main_start(item.margin, ctx.row)
        };
        sat_add(sat_add(base, mul_div(share, autos_preceding, 1)), own)
    } else {
        sat_add(
            sat_add(
                base,
                space_before(
                    justify_distribution(ctx.justify_content, ctx.reverse),
                    line.free,
                    line.count,
                    rank,
                ),
            ),
            main_start(item.margin, ctx.row),
        )
    }
}

/// The position of an item's corner along the main axis of the content box.
#[verifier::when_used_as_spec(spec_main_position)]
pub fn main_position(ctx: FlexCtx, item: FlexItem, line: Line) -> (r: i64)
    ensures
        r == spec_main_position(ctx, item, line),
{
    let outer = sat_add(item.target_main, crate::compute::common::main_sum(item.margin, ctx.row));
    let rank = if ctx.reverse {
        sat_sub(sat_sub(line.count, 1), item.rank)
    } else {
        item.rank
    };
    let preceding = if ctx.reverse {
        sat_sub(sat_sub(line.targets, item.before), outer)
    } else {
        item.before
    };
    let base = sat_add(preceding, mul_div(ctx.gap_main, rank, 1));
    if line.free > 0 && line.autos > 0 {
        let share = mul_div(line.free, 1, line.autos);
        let autos_preceding = if ctx.reverse {
            sat_sub(sat_sub(line.autos, item.autos_before), auto_count(ctx, item))
        } else {
            item.autos_before
        };
        let own = if main_start(item.margin_auto, ctx.row) {
            share
        } else {
            main_start(item.margin, ctx.row)
        };
        sat_add(sat_add(base, mul_div(share, autos_preceding, 1)), own)
    } else {
        sat_add(
            sat_add(
                base,
                space_before(
                    justify_distribution(ctx.justify_content, ctx.reverse),
                    line.free,
                    line.count,
                    rank,
                ),
            ),
            main_start(item.margin, ctx.row),
        )
    }
}

/// The position of an item's corner along the cross axis of the content box:
/// the offset of its line and its place within the line. `Auto` cross
/// margins take the free cross space of the item; otherwise `align_self`
/// places it. With reversed wrapping the flex-relative values change ends.
pub open spec fn spec_cross_position(ctx: FlexCtx, item: FlexItem, line: Line) -> i64 {
    let start = cross_start(item.margin, ctx.row);
    let end = cross_end(item.margin, ctx.row);
    let free = sat_sub(line.cross, sat_add(item.target_cross, cross_sum(item.margin, ctx.row)));
    let at_end = sat_sub(sat_sub(line.cross, item.target_cross), end);
    let flex_start = if ctx.wrap == FlexWrap::WrapReverse {
        at_end
    } else {
        start
    };
    let flex_end = if ctx.wrap == FlexWrap::WrapReverse {
        start
    } else {
        at_end
    };
    let within = if cross_start(item.margin_auto, ctx.row) && cross_end(
        item.margin_auto,
        ctx.row,
    ) {
        mul_div(max(free, 0), 1, 2)
    } else if cross_start(item.margin_auto, ctx.row) {
        max(free, 0)
    } else if cross_end(item.margin_auto, ctx.row) {
        start
    } else {
        match item.align_self {
            AlignItems::Start => start,
            AlignItems::End => at_end,
            AlignItems::FlexStart => flex_start,
            AlignItems::FlexEnd => flex_end,
            AlignItems::Center => sat_add(start, mul_div(free, 1, 2)),
            AlignItems::Baseline => if ctx.row {
                sat_sub(line.ascent, item.target_cross)
            } else {
                start
            },
            AlignItems::Stretch => flex_start,
        }
    };
    sat_add(line.offset, within)
}

/// The position of an item's corner along the cross axis of the content box.
#[verifier::when_used_as_spec(spec_cross_position)]
pub fn cross_position(ctx: FlexCtx, item: FlexItem, line: Line) -> (r: i64)
    ensures
        r == spec_cross_position(ctx, item, line),
{
    let start = cross_start(item.margin, ctx.row);
    let end = cross_end(item.margin, ctx.row);
    let free = sat_sub(line.cross, sat_add(item.target_cross, cross_sum(item.margin, ctx.row)));
    let at_end = sat_sub(sat_sub(line.cross, item.target_cross), end);
    let flex_start = if ctx.wrap == FlexWrap::WrapReverse {
        at_end
    } else {
        start
    };
    let flex_end = if ctx.wrap == FlexWrap::WrapReverse {
        start
    } else {
        at_end
    };
    let within = if cross_start(item.margin_auto, ctx.row) && cross_end(
        item.margin_auto,
        ctx.row,
    ) {
        mul_div(max(free, 0), 1, 2)
    } else if cross_start(item.margin_auto, ctx.row) {
        max(free, 0)
    } else if cross_end(item.margin_auto, ctx.row) {
        start
    } else {
        match item.align_self {
            AlignItems::Start => start,
            AlignItems::End => at_end,
            AlignItems::FlexStart => flex_start,
            AlignItems::FlexEnd => flex_end,
            AlignItems::Center => sat_add(start, mul_div(free, 1, 2)),
            AlignItems::Baseline => if ctx.row {
                sat_sub(line.ascent, item.target_cross)
            } else {
                start
            },
            AlignItems::Stretch => flex_start,
        }
    };
    sat_add(line.offset, within)
}

/// The size of the padding box of the container: its size less its border.
pub open spec fn spec_padding_box(ctx: FlexCtx) -> Size<i64> {
    Size {
        width: sat_sub(ctx.container.width, horizontal_sum(ctx.border)),
        height: sat_sub(ctx.container.height, vertical_sum(ctx.border)),
    }
}

/// The size of the padding box of the container.
#[verifier::when_used_as_spec(spec_padding_box)]
pub fn padding_box(ctx: FlexCtx) -> (r: Size<i64>)
    ensures
        r == spec_padding_box(ctx),
{
    Size {
        width: sat_sub(ctx.container.width, horizontal_sum(ctx.border)),
        height: sat_sub(ctx.container.height, vertical_sum(ctx.border)),
    }
}

/// One dimension of an absolutely placed child where its styles decide it:
/// its size, else the space between its two insets where both are given,
/// held between its bounds.
pub open spec fn spec_inset_length(
    size: Option<i64>,
    lo: Option<i64>,
    hi: Option<i64>,
    near: Option<i64>,
    far: Option<i64>,
    margins: i64,
    space: i64,
) -> Option<i64> {
    match size {
        Some(v) => Some(clamp(v, lo, hi)),
        None => match (near, far) {
            (Some(n), Some(f)) => Some(
                clamp(sat_sub(sat_sub(sat_sub(space, n), f), margins), lo, hi),
            ),
            _ => None,
        },
    }
}

/// One dimension of an absolutely placed child where its styles decide it.
#[verifier::when_used_as_spec(spec_inset_length)]
pub fn inset_length(
    size: Option<i64>,
    lo: Option<i64>,
    hi: Option<i64>,
    near: Option<i64>,
    far: Option<i64>,
    margins: i64,
    space: i64,
) -> (r: Option<i64>)
    ensures
        r == spec_inset_length(size, lo, hi, near, far, margins, space),
{
    match size {
        Some(v) => Some(clamp(v, lo, hi)),
        None => match (near, far) {
            (Some(n), Some(f)) => Some(
                clamp(sat_sub(sat_sub(sat_sub(space, n), f), margins), lo, hi),
            ),
            _ => None,
        },
    }
}

/// The dimensions of an absolutely placed child that its styles decide. Its
/// sizes and insets resolve against the padding box of the container.
pub open spec fn spec_absolute_known(ctx: FlexCtx, item: FlexItem) -> Size<Option<i64>> {
    let space = padding_box(ctx);
    let context = Size { width: Some(space.width), height: Some(space.height) };
    let size = resolve_size(item.style.size, context);
    let lo = resolve_size(item.style.min_size, context);
    let hi = resolve_size(item.style.max_size, context);
    Size {
        width: inset_length(
            size.width,
            lo.width,
            hi.width,
            resolve_auto(item.style.inset.left, context.width),
            resolve_auto(item.style.inset.right, context.width),
            horizontal_sum(item.margin),
            space.width,
        ),
        height: inset_length(
            size.height,
            lo.height,
            hi.height,
            resolve_auto(item.style.inset.top, context.height),
            resolve_auto(item.style.inset.bottom, context.height),
            vertical_sum(item.margin),
            space.height,
        ),
    }
}

/// The dimensions of an absolutely placed child that its styles decide.
#[verifier::when_used_as_spec(spec_absolute_known)]
pub fn absolute_known(ctx: FlexCtx, item: FlexItem) -> (r: Size<Option<i64>>)
    ensures
        r == spec_absolute_known(ctx, item),
{
    let space = padding_box(ctx);
    let context = Size { width: Some(space.width), height: Some(space.height) };
    let size = resolve_size(item.style.size, context);
    let lo = resolve_size(item.style.min_size, context);
    let hi = resolve_size(item.style.max_size, context);
    Size {
        width: inset_length(
            size.width,
            lo.width,
            hi.width,
            resolve_auto(item.style.inset.left, context.width),
            resolve_auto(item.style.inset.right, context.width),
            horizontal_sum(item.margin),
            space.width,
        ),
        height: inset_length(
            size.height,
            lo.height,
            hi.height,
            resolve_auto(item.style.inset.top, context.height),
            resolve_auto(item.style.inset.bottom, context.height),
            vertical_sum(item.margin),
            space.height,
        ),
    }
}

/// The size of an absolutely placed child: what its styles decide, else
/// what the child was measured to be; held between its bounds and never
/// negative.
pub open spec fn spec_absolute_size(ctx: FlexCtx, item: FlexItem, measured: Size<i64>) -> Size<i64> {
    let space = padding_box(ctx);
    let context = Size { width: Some(space.width), height: Some(space.height) };
    let known = absolute_known(ctx, item);
    let lo = resolve_size(item.style.min_size, context);
    let hi = resolve_size(item.style.max_size, context);
    Size {
        width: max(clamp(unwrap_or(known.width, measured.width), lo.width, hi.width), 0),
        height: max(clamp(unwrap_or(known.height, measured.height), lo.height, hi.height), 0),
    }
}

/// The size of an absolutely placed child.
#[verifier::when_used_as_spec(spec_absolute_size)]
pub fn absolute_size(ctx: FlexCtx, item: FlexItem, measured: Size<i64>) -> (r: Size<i64>)
    ensures
        r == spec_absolute_size(ctx, item, measured),
{
    let space = padding_box(ctx);
    let context = Size { width: Some(space.width), height: Some(space.height) };
    let known = absolute_known(ctx, item);
    let lo = resolve_size(item.style.min_size, context);
    let hi = resolve_size(item.style.max_size, context);
    Size {
        width: max(clamp(unwrap_or(known.width, measured.width), lo.width, hi.width), 0),
        height: max(clamp(unwrap_or(known.height, measured.height), lo.height, hi.height), 0),
    }
}

/// The position of an absolutely placed child on one axis, in the content
/// box of the container: behind its near inset where that is given, else
/// before its far inset where that is given, else at the start of the
/// padding box; its margin kept free in each case.
pub open spec fn spec_inset_position(
    near: Option<i64>,
    far: Option<i64>,
    near_margin: i64,
    far_margin: i64,
    length: i64,
    space: i64,
    padding: i64,
) -> i64 {
    let in_padding_box = match (near, far) {
        (Some(n), _) => sat_add(n, near_margin),
        (None, Some(f)) => sat_sub(sat_sub(sat_sub(space, f), far_margin), length),
        (None, None) => near_margin,
    };
    sat_sub(in_padding_box, padding)
}

/// The position of an absolutely placed child on one axis, in the content
/// box of the container.
#[verifier::when_used_as_spec(spec_inset_position)]
pub fn inset_position(
    near: Option<i64>,
    far: Option<i64>,
    near_margin: i64,
    far_margin: i64,
    length: i64,
    space: i64,
    padding: i64,
) -> (r: i64)
    ensures
        r == spec_inset_position(near, far, near_margin, far_margin, length, space, padding),
{
    let in_padding_box = match (near, far) {
        (Some(n), _) => sat_add(n, near_margin),
        (None, Some(f)) => sat_sub(sat_sub(sat_sub(space, f), far_margin), length),
        (None, None) => near_margin,
    };
    sat_sub(in_padding_box, padding)
}

/// The corner of an absolutely placed child of the given size, in the
/// content box of the container.
pub open spec fn spec_absolute_location(ctx: FlexCtx, item: FlexItem, size: Size<i64>) -> Point<i64> {
    let space = padding_box(ctx);
    Point {
        x: inset_position(
            resolve_auto(item.style.inset.left, Some(space.width)),
            resolve_auto(item.style.inset.right, Some(space.width)),
            item.margin.left,
            item.margin.right,
            size.width,
            space.width,
            ctx.padding.left,
        ),
        y: inset_position(
            resolve_auto(item.style.inset.top, Some(space.height)),
            resolve_auto(item.style.inset.bottom, Some(space.height)),
            item.margin.top,
            item.margin.bottom,
            size.height,
            space.height,
            ctx.padding.top,
        ),
    }
}

/// The corner of an absolutely placed child of the given size, in the
/// content box of the container.
#[verifier::when_used_as_spec(spec_absolute_location)]
pub fn absolute_location(ctx: FlexCtx, item: FlexItem, size: Size<i64>) -> (r: Point<i64>)
    ensures
        r == spec_absolute_location(ctx, item, size),
{
    let space = padding_box(ctx);
    Point {
        x: inset_position(
            resolve_auto(item.style.inset.left, Some(space.width)),
            resolve_auto(item.style.inset.right, Some(space.width)),
            item.margin.left,
            item.margin.right,
            size.width,
            space.width,
            ctx.padding.left,
        ),
        y: inset_position(
            resolve_auto(item.style.inset.top, Some(space.height)),
            resolve_auto(item.style.inset.bottom, Some(space.height)),
            item.margin.top,
            item.margin.bottom,
            size.height,
            space.height,
            ctx.padding.top,
        ),
    }
}

/// Whether an item is stretched to the cross size of its line: it is
/// aligned by `Stretch`, its cross size is `Auto` and neither of its cross
/// margins is.
pub open spec fn spec_stretches(ctx: FlexCtx, item: FlexItem) -> bool {
    &&& item.align_self == AlignItems::Stretch
    &&& cross_of(item.size, ctx.row).is_none()
    &&& !cross_start(item.margin_auto, ctx.row)
    &&& !cross_end(item.margin_auto, ctx.row)
}

/// Whether an item is stretched to the cross size of its line.
#[verifier::when_used_as_spec(spec_stretches)]
pub fn stretches(ctx: FlexCtx, item: FlexItem) -> (r: bool)
    ensures
        r == spec_stretches(ctx, item),
{
    item.align_self == AlignItems::Stretch && cross_of(item.size, ctx.row).is_none()
        && !cross_start(item.margin_auto, ctx.row) && !cross_end(item.margin_auto, ctx.row)
}

/// A main size held between the floor of the item and its upper bound, and
/// never negative.
pub open spec fn spec_bounded_main(ctx: FlexCtx, item: FlexItem, length: i64) -> i64 {
    max(clamp(length, Some(item.floor_main), main_of(item.max_size, ctx.row)), 0)
}

/// A main size held between the floor of the item and its upper bound, and
/// never negative.
#[verifier::when_used_as_spec(spec_bounded_main)]
pub fn bounded_main(ctx: FlexCtx, item: FlexItem, length: i64) -> (r: i64)
    ensures
        r == spec_bounded_main(ctx, item, length),
{
    max(clamp(length, Some(item.floor_main), main_of(item.max_size, ctx.row)), 0)
}

/// A cross size held between the bounds of the item, and never negative.
pub open spec fn spec_bounded_cross(ctx: FlexCtx, item: FlexItem, length: i64) -> i64 {
    max(clamp(length, cross_of(item.min_size, ctx.row), cross_of(item.max_size, ctx.row)), 0)
}

/// A cross size held between the bounds of the item, and never negative.
#[verifier::when_used_as_spec(spec_bounded_cross)]
pub fn bounded_cross(ctx: FlexCtx, item: FlexItem, length: i64) -> (r: i64)
    ensures
        r == spec_bounded_cross(ctx, item, length),
{
    max(clamp(length, cross_of(item.min_size, ctx.row), cross_of(item.max_size, ctx.row)), 0)
}

/// The share of the free space of a line that an unfrozen item takes, in
/// proportion to its flex factor. A growing line shares out only positive
/// free space, a shrinking line only negative.
pub open spec fn spec_flex_share(item: FlexItem, line: Line) -> i64 {
    if (line.growing && line.free > 0) || (!line.growing && line.free < 0) {
        mul_div(line.free, flex_factor(item, line.growing), line.factor_sum)
    } else {
        0
    }
}

/// The share of the free space of a line that an unfrozen item takes.
#[verifier::when_used_as_spec(spec_flex_share)]
pub fn flex_share(item: FlexItem, line: Line) -> (r: i64)
    ensures
        r == spec_flex_share(item, line),
{
    if (line.growing && line.free > 0) || (!line.growing && line.free < 0) {
        mul_div(line.free, flex_factor(item, line.growing), line.factor_sum)
    } else {
        0
    }
}

/// Whether an item is inflexible from the start: it is not in the flow, its
/// flex factor is zero, or its flex basis already lies beyond its
/// hypothetical size in the direction the line flexes.
pub open spec fn spec_inflexible(item: FlexItem, line: Line) -> bool {
    let factor = if line.growing {
        item.grow
    } else {
        item.shrink
    };
    item.kind != ItemKind::Flow || factor == 0 || (line.growing && item.flex_basis
        > item.hypothetical_main) || (!line.growing && item.flex_basis < item.hypothetical_main)
}

/// Whether an item is inflexible from the start.
#[verifier::when_used_as_spec(spec_inflexible)]
pub fn inflexible(item: FlexItem, line: Line) -> (r: bool)
    ensures
        r == spec_inflexible(item, line),
{
    let factor = if line.growing {
        item.grow
    } else {
        item.shrink
    };
    item.kind != ItemKind::Flow || factor == 0 || (line.growing && item.flex_basis
        > item.hypothetical_main) || (!line.growing && item.flex_basis < item.hypothetical_main)
}

/// Whether an unfrozen item is frozen at the end of a round: all are where
/// the violations of the line cancel out; else those whose violation has the
/// sign of the line's.
pub open spec fn spec_freezes(item: FlexItem, line: Line) -> bool {
    line.violation == 0 || (line.violation > 0 && item.violation > 0) || (line.violation < 0
        && item.violation < 0)
}

/// Whether an unfrozen item is frozen at the end of a round.
#[verifier::when_used_as_spec(spec_freezes)]
pub fn freezes(item: FlexItem, line: Line) -> (r: bool)
    ensures
        r == spec_freezes(item, line),
{
    line.violation == 0 || (line.violation > 0 && item.violation > 0) || (line.violation < 0
        && item.violation < 0)
}

/// A step of the algorithm that changes one item at a time.
#[derive(Clone, Copy, Debug, PartialEq, Eq, Structural)]
pub enum ItemStage {
    /// Sets the flex basis: that of the styles, else the main size the child
    /// was measured to have.
    Base,
    /// Sets the floor of the main size, which is the child's lower bound,
    /// else the main size the child was measured to have under a
    /// min-content constraint; and the hypothetical main size, which is the
    /// flex basis held between the floor and the upper bound.
    Floor,
    /// Freezes the inflexible items at their hypothetical main size and
    /// starts the others at their flex basis.
    Init,
    /// Gives each unfrozen item its share of the free space, holds the
    /// result between its bounds and notes the violation.
    Distribute,
    /// Freezes the unfrozen items that the violations of the line call for.
    Freeze,
    /// Sets the hypothetical cross size: the child's cross size, else the
    /// one it was measured to have; held between its bounds.
    Cross,
    /// Sets the cross size: that of the line less margins for a stretched
    /// item, else the hypothetical one.
    UsedCross,
    /// Sets the location.
    Place,
    /// Sets the main and cross size of an absolutely placed child.
    AbsoluteSize,
}

/// The item after a step. `line` is the line of the item and `result` the
/// size its child was last measured to have.
pub open spec fn spec_item_apply(
    stage: ItemStage,
    ctx: FlexCtx,
    item: FlexItem,
    line: Line,
    result: Size<i64>,
) -> FlexItem {
    match stage {
        ItemStage::Base => FlexItem {
            flex_basis: unwrap_or(item.basis, main_of(result, ctx.row)),
            ..item
        },
        ItemStage::Floor => {
            let floor = unwrap_or(main_of(item.min_size, ctx.row), main_of(result, ctx.row));
            FlexItem {
                floor_main: floor,
                hypothetical_main: max(
                    clamp(item.flex_basis, Some(floor), main_of(item.max_size, ctx.row)),
                    0,
                ),
                ..item
            }
        },
        ItemStage::Init => {
            let frozen = inflexible(item, line);
            FlexItem {
                frozen,
                target_main: if frozen {
                    item.hypothetical_main
                } else {
                    item.flex_basis
                },
                violation: 0,
                ..item
            }
        },
        ItemStage::Distribute => if item.frozen {
            item
        } else {
            let target = sat_add(item.flex_basis, flex_share(item, line));
            let bounded = bounded_main(ctx, item, target);
            FlexItem { target_main: bounded, violation: sat_sub(bounded, target), ..item }
        },
        ItemStage::Freeze => if item.frozen {
            item
        } else {
            FlexItem { frozen: freezes(item, line), ..item }
        },
        ItemStage::Cross => FlexItem {
            hypothetical_cross: bounded_cross(
                ctx,
                item,
                unwrap_or(cross_of(item.size, ctx.row), cross_of(result, ctx.row)),
            ),
            ..item
        },
        ItemStage::UsedCross => FlexItem {
            target_cross: if stretches(ctx, item) {
                bounded_cross(ctx, item, sat_sub(line.cross, cross_sum(item.margin, ctx.row)))
            } else {
                item.hypothetical_cross
            },
            ..item
        },
        ItemStage::Place => {
            let main = main_position(ctx, item, line);
            let cross = cross_position(ctx, item, line);
            let at = from_axes(ctx.row, main, cross);
            FlexItem { location: Point { x: at.width, y: at.height }, ..item }
        },
        ItemStage::AbsoluteSize => {
            let size = absolute_size(ctx, item, result);
            FlexItem {
                target_main: main_of(size, ctx.row),
                target_cross: cross_of(size, ctx.row),
                ..item
            }
        },
    }
}

/// Applies a step to one item.
#[verifier::when_used_as_spec(spec_item_apply)]
pub fn item_apply(
    stage: ItemStage,
    ctx: FlexCtx,
    item: FlexItem,
    line: Line,
    result: Size<i64>,
) -> (r: FlexItem)
    ensures
        r == spec_item_apply(stage, ctx, item, line, result),
{
    match stage {
        ItemStage::Base => FlexItem {
            flex_basis: unwrap_or(item.basis, main_of(result, ctx.row)),
            ..item
        },
        ItemStage::Floor => {
            let floor = unwrap_or(main_of(item.min_size, ctx.row), main_of(result, ctx.row));
            FlexItem {
                floor_main: floor,
                hypothetical_main: max(
                    clamp(item.flex_basis, Some(floor), main_of(item.max_size, ctx.row)),
                    0,
                ),
                ..item
            }
        },
        ItemStage::Init => {
            let frozen = inflexible(item, line);
            FlexItem {
                frozen,
                target_main: if frozen {
                    item.hypothetical_main
                } else {
                    item.flex_basis
                },
                violation: 0,
                ..item
            }
        },
        ItemStage::Distribute => if item.frozen {
            item
        } else {
            let target = sat_add(item.flex_basis, flex_share(item, line));
            let bounded = bounded_main(ctx, item, target);
            FlexItem { target_main: bounded, violation: sat_sub(bounded, target), ..item }
        },
        ItemStage::Freeze => if item.frozen {
            item
        } else {
            FlexItem { frozen: freezes(item, line), ..item }
        },
        ItemStage::Cross => FlexItem {
            hypothetical_cross: bounded_cross(
                ctx,
                item,
                unwrap_or(cross_of(item.size, ctx.row), cross_of(result, ctx.row)),
            ),
            ..item
        },
        ItemStage::UsedCross => FlexItem {
            target_cross: if stretches(ctx, item) {
                bounded_cross(ctx, item, sat_sub(line.cross, cross_sum(item.margin, ctx.row)))
            } else {
                item.hypothetical_cross
            },
            ..item
        },
        ItemStage::Place => {
            let main = main_position(ctx, item, line);
            let cross = cross_position(ctx, item, line);
            let at = from_axes(ctx.row, main, cross);
            FlexItem { location: Point { x: at.width, y: at.height }, ..item }
        },
        ItemStage::AbsoluteSize => {
            let size = absolute_size(ctx, item, result);
            FlexItem {
                target_main: main_of(size, ctx.row),
                target_cross: cross_of(size, ctx.row),
                ..item
            }
        },
    }
}

/// The size at `index` of a list of measured sizes; the zero size where the
/// list is shorter.
pub open spec fn result_at(results: Seq<Size<i64>>, index: int) -> Size<i64> {
    if 0 <= index < results.len() {
        results[index]
    } else {
        zero_size()
    }
}

/// The items after a step has been applied to each.
#[verifier::opaque]
pub open spec fn spec_item_pass(
    stage: ItemStage,
    ctx: FlexCtx,
    items: Seq<FlexItem>,
    lines: Seq<Line>,
    results: Seq<Size<i64>>,
) -> Seq<FlexItem> {
    Seq::new(
        items.len(),
        |i: int| item_apply(stage, ctx, items[i], line_of(lines, items[i]), result_at(results, i)),
    )
}

/// Applies a step to each item.
pub fn item_pass(
    stage: ItemStage,
    ctx: FlexCtx,
    items: &Vec<FlexItem>,
    lines: &Vec<Line>,
    results: &Vec<Size<i64>>,
) -> (out: Vec<FlexItem>)
    ensures
        out@ == spec_item_pass(stage, ctx, items@, lines@, results@),
{
    let mut out: Vec<FlexItem> = Vec::new();
    let mut i: usize = 0;
    while i < items.len()
        invariant
            i <= items.len(),
            out.len() == i,
            forall|k: int|
                0 <= k < i ==> out[k] == item_apply(
                    stage,
                    ctx,
                    items[k],
                    line_of(lines@, items[k]),
                    result_at(results@, k),
                ),
        decreases items.len() - i,
    {
        let item = items[i];
        let result = if i < results.len() {
            results[i]
        } else {
            zero_size()
        };
        out.push(item_apply(stage, ctx, item, line_of_exec(lines, item), result));
        i = i + 1;
    }
    proof {
        reveal(spec_item_pass);
    }
    assert(out@ =~= spec_item_pass(stage, ctx, items@, lines@, results@));
    out
}

} // verus!
