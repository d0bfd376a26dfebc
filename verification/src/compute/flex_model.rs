//! The working data of the flexbox algorithm: the constants of a container,
//! its items and lines, and the sums taken over the items of a line.

use vstd::prelude::*;
use crate::compute::common::{
    cross_end, cross_of, cross_start, cross_sum, main_end, main_of, main_start, main_sum,
};
use crate::fixed::{max, mul_div, sat_add, sat_sub, ONE};
use crate::geometry::{
    horizontal_sum, maybe_sub, rect_add, unwrap_or, vertical_sum, zero_point, Point, Rect, Size,
};
use crate::node::Node;
use crate::style::{
    resolve_auto, resolve_dimension, resolve_edges, resolve_length, resolve_size, AlignContent,
    AlignItems, AvailableSpace, Display, FlexDirection, FlexWrap, JustifyContent,
    LengthPercentageAuto, PositionType, Style,
};

verus! {

/// The part a child plays in the layout of its container.
#[derive(Clone, Copy, Debug, PartialEq, Eq, Structural)]
pub enum ItemKind {
    /// Placed on a flex line.
    Flow,
    /// Taken out of the flow and placed by its inset.
    Absolute,
    /// Hidden: it and its descendants get the zero layout.
    Hidden,
}

/// What the algorithm holds of the container while it runs.
#[derive(Clone, Copy, Debug)]
pub struct FlexCtx {
    /// Whether the main axis is horizontal.
    pub row: bool,
    /// Whether items are placed against the direction of the main axis.
    pub reverse: bool,
    pub wrap: FlexWrap,
    pub align_items: AlignItems,
    pub align_content: AlignContent,
    pub justify_content: JustifyContent,
    pub padding: Rect<i64>,
    pub border: Rect<i64>,
    /// Padding and border, edge by edge.
    pub padding_border: Rect<i64>,
    /// The gap between neighbouring items of a line.
    pub gap_main: i64,
    /// The gap between neighbouring lines.
    pub gap_cross: i64,
    /// The size of the container where it is known from the start.
    pub outer: Size<Option<i64>>,
    /// The size of the content box where it is known from the start.
    pub inner: Size<Option<i64>>,
    /// The container's own lower bounds.
    pub min: Size<Option<i64>>,
    /// The container's own upper bounds.
    pub max: Size<Option<i64>>,
    /// The space that the items are sized under.
    pub available: Size<AvailableSpace>,
    /// The main size of the content box, once the lines are collected.
    pub inner_main: i64,
    /// The cross size of the content box, once the lines are sized.
    pub inner_cross: i64,
    /// The size of the container, once it is decided.
    pub container: Size<i64>,
}

/// What the algorithm holds of one child of the container.
#[derive(Clone, Copy, Debug)]
pub struct FlexItem {
    pub node: Node,
    pub kind: ItemKind,
    pub style: Style,
    /// The child's `size`, resolved against the content box of the container.
    pub size: Size<Option<i64>>,
    pub min_size: Size<Option<i64>>,
    pub max_size: Size<Option<i64>>,
    /// The margins, `Auto` counted as zero.
    pub margin: Rect<i64>,
    /// Which of the margins are `Auto`.
    pub margin_auto: Rect<bool>,
    pub align_self: AlignItems,
    pub grow: i64,
    pub shrink: i64,
    /// The flex basis where the styles give one.
    pub basis: Option<i64>,
    pub flex_basis: i64,
    /// The main size below which the item does not shrink.
    pub floor_main: i64,
    pub hypothetical_main: i64,
    pub frozen: bool,
    pub target_main: i64,
    /// By how much the last clamping changed the target main size.
    pub violation: i64,
    pub hypothetical_cross: i64,
    pub target_cross: i64,
    /// The index of the item's line.
    pub line: usize,
    /// The number of flow items before this one on its line.
    pub rank: i64,
    /// The outer target main sizes of the flow items before this one on its
    /// line, summed.
    pub before: i64,
    /// The number of `Auto` main margins before this item on its line.
    pub autos_before: i64,
    /// The corner of the item in the content box of the container.
    pub location: Point<i64>,
}

/// One flex line: the items with indices from `start` up to `end`.
#[derive(Clone, Copy, Debug)]
pub struct Line {
    pub start: usize,
    pub end: usize,
    /// The number of flow items on the line.
    pub count: i64,
    /// The hypothetical outer main sizes of the items and the gaps between
    /// them, summed.
    pub length: i64,
    /// Whether the items fall short of the main size and so may grow.
    pub growing: bool,
    /// The main size that the items do not take up.
    pub free: i64,
    /// The flex factors of the unfrozen items, summed.
    pub factor_sum: i64,
    /// The violations of the unfrozen items, summed.
    pub violation: i64,
    /// The outer target main sizes of the items, summed.
    pub targets: i64,
    /// The number of `Auto` main margins on the line.
    pub autos: i64,
    pub cross: i64,
    /// The largest distance from the top of the line to a baseline.
    pub ascent: i64,
    /// The number of lines before this one.
    pub rank: i64,
    /// The cross sizes of the lines before this one, summed.
    pub before: i64,
    /// The position of the line along the cross axis.
    pub offset: i64,
}

/// Whether the main axis of a direction is horizontal.
pub open spec fn spec_is_row(d: FlexDirection) -> bool {
    d == FlexDirection::Row || d == FlexDirection::RowReverse
}

/// Whether the main axis of a direction is horizontal.
#[verifier::when_used_as_spec(spec_is_row)]
pub fn is_row(d: FlexDirection) -> (r: bool)
    ensures
        r == spec_is_row(d),
{
    d == FlexDirection::Row || d == FlexDirection::RowReverse
}

/// Whether a direction runs against its axis.
pub open spec fn spec_is_reverse(d: FlexDirection) -> bool {
    d == FlexDirection::RowReverse || d == FlexDirection::ColumnReverse
}

/// Whether a direction runs against its axis.
#[verifier::when_used_as_spec(spec_is_reverse)]
pub fn is_reverse(d: FlexDirection) -> (r: bool)
    ensures
        r == spec_is_reverse(d),
{
    d == FlexDirection::RowReverse || d == FlexDirection::ColumnReverse
}

/// The space left for the items on one axis: the content box where it is
/// known, else the available space less padding and border.
pub open spec fn spec_space_for_items(inner: Option<i64>, available: AvailableSpace, edges: i64) -> AvailableSpace {
    match inner {
        Some(v) => AvailableSpace::Definite(v),
        None => match available {
            AvailableSpace::Definite(v) => AvailableSpace::Definite(sat_sub(v, edges)),
            other => other,
        },
    }
}

/// The space left for the items on one axis.
#[verifier::when_used_as_spec(spec_space_for_items)]
pub fn space_for_items(inner: Option<i64>, available: AvailableSpace, edges: i64) -> (r: AvailableSpace)
    ensures
        r == spec_space_for_items(inner, available, edges),
{
    match inner {
        Some(v) => AvailableSpace::Definite(v),
        None => match available {
            AvailableSpace::Definite(v) => AvailableSpace::Definite(sat_sub(v, edges)),
            other => other,
        },
    }
}

/// The constants of a container: its axes and alignment, its padding, border
/// and gaps resolved, and its content box where the known dimensions give
/// it. Padding and border resolve against the width of the parent, gaps
/// against the content box.
pub open spec fn spec_compute_constants(
    style: Style,
    known_dimensions: Size<Option<i64>>,
    parent_size: Size<Option<i64>>,
    available_space: Size<AvailableSpace>,
) -> FlexCtx {
    let row = is_row(style.flex_direction);
    let padding = resolve_edges(style.padding, parent_size.width);
    let border = resolve_edges(style.border, parent_size.width);
    let padding_border = rect_add(padding, border);
    let inner = Size {
        width: maybe_sub(known_dimensions.width, horizontal_sum(padding_border)),
        height: maybe_sub(known_dimensions.height, vertical_sum(padding_border)),
    };
    let gap = Size {
        width: resolve_length(style.gap.width, inner.width),
        height: resolve_length(style.gap.height, inner.height),
    };
    FlexCtx {
        row,
        reverse: is_reverse(style.flex_direction),
        wrap: style.flex_wrap,
        align_items: style.align_items,
        align_content: style.align_content,
        justify_content: style.justify_content,
        padding,
        border,
        padding_border,
        gap_main: main_of(gap, row),
        gap_cross: cross_of(gap, row),
        outer: known_dimensions,
        inner,
        min: resolve_size(style.min_size, parent_size),
        max: resolve_size(style.max_size, parent_size),
        available: Size {
            width: space_for_items(
                inner.width,
                available_space.width,
                horizontal_sum(padding_border),
            ),
            height: space_for_items(
                inner.height,
                available_space.height,
                vertical_sum(padding_border),
            ),
        },
        inner_main: 0,
        inner_cross: 0,
        container: Size { width: 0, height: 0 },
    }
}

/// Computes the constants of a container.
#[verifier::when_used_as_spec(spec_compute_constants)]
pub fn compute_constants(
    style: Style,
    known_dimensions: Size<Option<i64>>,
    parent_size: Size<Option<i64>>,
    available_space: Size<AvailableSpace>,
) -> (ctx: FlexCtx)
    ensures
        ctx == spec_compute_constants(style, known_dimensions, parent_size, available_space),
{
    let row = is_row(style.flex_direction);
    let padding = resolve_edges(style.padding, parent_size.width);
    let border = resolve_edges(style.border, parent_size.width);
    let padding_border = rect_add(padding, border);
    let inner = Size {
        width: maybe_sub(known_dimensions.width, horizontal_sum(padding_border)),
        height: maybe_sub(known_dimensions.height, vertical_sum(padding_border)),
    };
    let gap = Size {
        width: resolve_length(style.gap.width, inner.width),
        height: resolve_length(style.gap.height, inner.height),
    };
    FlexCtx {
        row,
        reverse: is_reverse(style.flex_direction),
        wrap: style.flex_wrap,
        align_items: style.align_items,
        align_content: style.align_content,
        justify_content: style.justify_content,
        padding,
        border,
        padding_border,
        gap_main: main_of(gap, row),
        gap_cross: cross_of(gap, row),
        outer: known_dimensions,
        inner,
        min: resolve_size(style.min_size, parent_size),
        max: resolve_size(style.max_size, parent_size),
        available: Size {
            width: space_for_items(
                inner.width,
                available_space.width,
                horizontal_sum(padding_border),
            ),
            height: space_for_items(
                inner.height,
                available_space.height,
                vertical_sum(padding_border),
            ),
        },
        inner_main: 0,
        inner_cross: 0,
        container: Size { width: 0, height: 0 },
    }
}

/// Whether a margin is left to the algorithm.
pub open spec fn spec_is_auto(l: LengthPercentageAuto) -> bool {
    l == LengthPercentageAuto::Auto
}

/// Whether a margin is left to the algorithm.
#[verifier::when_used_as_spec(spec_is_auto)]
pub fn is_auto(l: LengthPercentageAuto) -> (r: bool)
    ensures
        r == spec_is_auto(l),
{
    l == LengthPercentageAuto::Auto
}

/// The part a child with the given style plays.
pub open spec fn spec_kind_of(style: Style) -> ItemKind {
    if style.display == Display::Hidden {
        ItemKind::Hidden
    } else if style.position_type == PositionType::Absolute {
        ItemKind::Absolute
    } else {
        ItemKind::Flow
    }
}

/// The part a child with the given style plays.
#[verifier::when_used_as_spec(spec_kind_of)]
pub fn kind_of(style: Style) -> (k: ItemKind)
    ensures
        k == spec_kind_of(style),
{
    if style.display == Display::Hidden {
        ItemKind::Hidden
    } else if style.position_type == PositionType::Absolute {
        ItemKind::Absolute
    } else {
        ItemKind::Flow
    }
}

/// The item that stands for a child at the start of the algorithm. Sizes
/// resolve against the content box of the container, margins against its
/// width, `Auto` margins count as zero, negative flex factors as zero, and
/// the flex basis is the child's `flex_basis`, else its main size.
pub open spec fn spec_make_item(ctx: FlexCtx, node: Node, style: Style) -> FlexItem {
    let size = resolve_size(style.size, ctx.inner);
    FlexItem {
        node,
        kind: kind_of(style),
        style,
        size,
        min_size: resolve_size(style.min_size, ctx.inner),
        max_size: resolve_size(style.max_size, ctx.inner),
        margin: Rect {
            left: unwrap_or(resolve_auto(style.margin.left, ctx.inner.width), 0),
            right: unwrap_or(resolve_auto(style.margin.right, ctx.inner.width), 0),
            top: unwrap_or(resolve_auto(style.margin.top, ctx.inner.width), 0),
            bottom: unwrap_or(resolve_auto(style.margin.bottom, ctx.inner.width), 0),
        },
        margin_auto: Rect {
            left: is_auto(style.margin.left),
            right: is_auto(style.margin.right),
            top: is_auto(style.margin.top),
            bottom: is_auto(style.margin.bottom),
        },
        align_self: match style.align_self {
            Some(a) => a,
            None => ctx.align_items,
        },
        grow: max(style.flex_grow, 0),
        shrink: max(style.flex_shrink, 0),
        basis: match resolve_dimension(style.flex_basis, main_of(ctx.inner, ctx.row)) {
            Some(b) => Some(b),
            None => main_of(size, ctx.row),
        },
        flex_basis: 0,
        floor_main: 0,
        hypothetical_main: 0,
        frozen: false,
        target_main: 0,
        violation: 0,
        hypothetical_cross: 0,
        target_cross: 0,
        line: 0,
        rank: 0,
        before: 0,
        autos_before: 0,
        location: zero_point(),
    }
}

/// Makes the item that stands for a child at the start of the algorithm.
#[verifier::when_used_as_spec(spec_make_item)]
pub fn make_item(ctx: FlexCtx, node: Node, style: Style) -> (item: FlexItem)
    ensures
        item == spec_make_item(ctx, node, style),
{
    let size = resolve_size(style.size, ctx.inner);
    FlexItem {
        node,
        kind: kind_of(style),
        style,
        size,
        min_size: resolve_size(style.min_size, ctx.inner),
        max_size: resolve_size(style.max_size, ctx.inner),
        margin: Rect {
            left: unwrap_or(resolve_auto(style.margin.left, ctx.inner.width), 0),
            right: unwrap_or(resolve_auto(style.margin.right, ctx.inner.width), 0),
            top: unwrap_or(resolve_auto(style.margin.top, ctx.inner.width), 0),
            bottom: unwrap_or(resolve_auto(style.margin.bottom, ctx.inner.width), 0),
        },
        margin_auto: Rect {
            left: is_auto(style.margin.left),
            right: is_auto(style.margin.right),
            top: is_auto(style.margin.top),
            bottom: is_auto(style.margin.bottom),
        },
        align_self: match style.align_self {
            Some(a) => a,
            None => ctx.align_items,
        },
        grow: max(style.flex_grow, 0),
        shrink: max(style.flex_shrink, 0),
        basis: match resolve_dimension(style.flex_basis, main_of(ctx.inner, ctx.row)) {
            Some(b) => Some(b),
            None => main_of(size, ctx.row),
        },
        flex_basis: 0,
        floor_main: 0,
        hypothetical_main: 0,
        frozen: false,
        target_main: 0,
        violation: 0,
        hypothetical_cross: 0,
        target_cross: 0,
        line: 0,
        rank: 0,
        before: 0,
        autos_before: 0,
        location: zero_point(),
    }
}

/// A line over the given range of items, with nothing computed yet.
pub open spec fn spec_make_line(start: usize, end: usize) -> Line {
    Line {
        start,
        end,
        count: 0,
        length: 0,
        growing: false,
        free: 0,
        factor_sum: 0,
        violation: 0,
        targets: 0,
        autos: 0,
        cross: 0,
        ascent: 0,
        rank: 0,
        before: 0,
        offset: 0,
    }
}

/// Makes a line over the given range of items, with nothing computed yet.
#[verifier::when_used_as_spec(spec_make_line)]
pub fn make_line(start: usize, end: usize) -> (line: Line)
    ensures
        line == spec_make_line(start, end),
{
    Line {
        start,
        end,
        count: 0,
        length: 0,
        growing: false,
        free: 0,
        factor_sum: 0,
        violation: 0,
        targets: 0,
        autos: 0,
        cross: 0,
        ascent: 0,
        rank: 0,
        before: 0,
        offset: 0,
    }
}

/// A quantity of an item that is summed over a line. Children that are not
/// in the flow count as zero.
#[derive(Clone, Copy, Debug, PartialEq, Eq, Structural)]
pub enum Term {
    /// One for each item.
    Count,
    /// The hypothetical main size with margins.
    OuterHypothetical,
    /// The main size an item takes up while flexible lengths are resolved:
    /// with margins, the target size of a frozen item and the flex basis of
    /// an unfrozen one.
    Occupied,
    /// The flex factor of an unfrozen item: its grow factor on a growing
    /// line, else its shrink factor scaled by its flex basis.
    Factor,
    /// The violation of an unfrozen item.
    Violation,
    /// The target main size with margins.
    OuterTarget,
    /// The number of `Auto` margins along the main axis.
    AutoMargins,
}

/// A quantity of an item of which the largest on a line is taken. Children
/// that are not in the flow count as zero.
#[derive(Clone, Copy, Debug, PartialEq, Eq, Structural)]
pub enum Extent {
    /// The hypothetical cross size with margins.
    OuterCross,
    /// For an item aligned on the baseline of a row: the distance from the
    /// top of its margin box to its baseline, which is its bottom edge.
    Ascent,
    /// For an item aligned on the baseline of a row: the distance from its
    /// baseline to the bottom of its margin box.
    Descent,
}

/// The flex factor of an item on a line that grows or shrinks.
pub open spec fn spec_flex_factor(item: FlexItem, growing: bool) -> i64 {
    if growing {
        item.grow
    } else {
        mul_div(item.shrink, item.flex_basis, ONE)
    }
}

/// The flex factor of an item on a line that grows or shrinks.
#[verifier::when_used_as_spec(spec_flex_factor)]
pub fn flex_factor(item: FlexItem, growing: bool) -> (r: i64)
    ensures
        r == spec_flex_factor(item, growing),
{
    if growing {
        item.grow
    } else {
        mul_div(item.shrink, item.flex_basis, ONE)
    }
}

/// The number of `Auto` margins of an item along the main axis.
pub open spec fn spec_auto_count(ctx: FlexCtx, item: FlexItem) -> i64 {
    let first: i64 = if main_start(item.margin_auto, ctx.row) {
        1
    } else {
        0
    };
    let second: i64 = if main_end(item.margin_auto, ctx.row) {
        1
    } else {
        0
    };
    sat_add(first, second)
}

/// The number of `Auto` margins of an item along the main axis.
#[verifier::when_used_as_spec(spec_auto_count)]
pub fn auto_count(ctx: FlexCtx, item: FlexItem) -> (r: i64)
    ensures
        r == spec_auto_count(ctx, item),
{
    let first: i64 = if main_start(item.margin_auto, ctx.row) {
        1
    } else {
        0
    };
    let second: i64 = if main_end(item.margin_auto, ctx.row) {
        1
    } else {
        0
    };
    sat_add(first, second)
}

/// The value of a term for one item on a line.
pub open spec fn spec_term_value(term: Term, ctx: FlexCtx, line: Line, item: FlexItem) -> i64 {
    if item.kind != ItemKind::Flow {
        0
    } else {
        let margins = main_sum(item.margin, ctx.row);
        match term {
            Term::Count => 1,
            Term::OuterHypothetical => sat_add(item.hypothetical_main, margins),
            Term::Occupied => if item.frozen {
                sat_add(item.target_main, margins)
            } else {
                sat_add(item.flex_basis, margins)
            },
            Term::Factor => if item.frozen {
                0
            } else {
                flex_factor(item, line.growing)
            },
            Term::Violation => if item.frozen {
                0
            } else {
                item.violation
            },
            Term::OuterTarget => sat_add(item.target_main, margins),
            Term::AutoMargins => auto_count(ctx, item),
        }
    }
}

/// The value of a term for one item on a line.
#[verifier::when_used_as_spec(spec_term_value)]
pub fn term_value(term: Term, ctx: FlexCtx, line: Line, item: FlexItem) -> (r: i64)
    ensures
        r == spec_term_value(term, ctx, line, item),
{
    if item.kind != ItemKind::Flow {
        0
    } else {
        let margins = main_sum(item.margin, ctx.row);
        match term {
            Term::Count => 1,
            Term::OuterHypothetical => sat_add(item.hypothetical_main, margins),
            Term::Occupied => if item.frozen {
                sat_add(item.target_main, margins)
            } else {
                sat_add(item.flex_basis, margins)
            },
            Term::Factor => if item.frozen {
                0
            } else {
                flex_factor(item, line.growing)
            },
            Term::Violation => if item.frozen {
                0
            } else {
                item.violation
            },
            Term::OuterTarget => sat_add(item.target_main, margins),
            Term::AutoMargins => auto_count(ctx, item),
        }
    }
}

/// Whether an item is aligned on the baseline of its line. Only rows have
/// baselines.
pub open spec fn spec_on_baseline(ctx: FlexCtx, item: FlexItem) -> bool {
    ctx.row && item.align_self == AlignItems::Baseline
}

/// Whether an item is aligned on the baseline of its line.
#[verifier::when_used_as_spec(spec_on_baseline)]
pub fn on_baseline(ctx: FlexCtx, item: FlexItem) -> (r: bool)
    ensures
        r == spec_on_baseline(ctx, item),
{
    ctx.row && item.align_self == AlignItems::Baseline
}

/// The value of an extent for one item.
pub open spec fn spec_extent_value(extent: Extent, ctx: FlexCtx, item: FlexItem) -> i64 {
    if item.kind != ItemKind::Flow {
        0
    } else {
        match extent {
            Extent::OuterCross => sat_add(item.hypothetical_cross, cross_sum(item.margin, ctx.row)),
            Extent::Ascent => if on_baseline(ctx, item) {
                sat_add(cross_start(item.margin, ctx.row), item.hypothetical_cross)
            } else {
                0
            },
            Extent::Descent => if on_baseline(ctx, item) {
                cross_end(item.margin, ctx.row)
            } else {
                0
            },
        }
    }
}

/// The value of an extent for one item.
#[verifier::when_used_as_spec(spec_extent_value)]
pub fn extent_value(extent: Extent, ctx: FlexCtx, item: FlexItem) -> (r: i64)
    ensures
        r == spec_extent_value(extent, ctx, item),
{
    if item.kind != ItemKind::Flow {
        0
    } else {
        match extent {
            Extent::OuterCross => sat_add(item.hypothetical_cross, cross_sum(item.margin, ctx.row)),
            Extent::Ascent => if on_baseline(ctx, item) {
                sat_add(cross_start(item.margin, ctx.row), item.hypothetical_cross)
            } else {
                0
            },
            Extent::Descent => if on_baseline(ctx, item) {
                cross_end(item.margin, ctx.row)
            } else {
                0
            },
        }
    }
}

/// The saturating sum of a term over the items with indices from `lo` up to
/// `hi`, taken from left to right.
pub open spec fn sum_terms(
    term: Term,
    ctx: FlexCtx,
    line: Line,
    items: Seq<FlexItem>,
    lo: int,
    hi: int,
) -> i64
    decreases hi - lo,
{
    if hi <= lo {
        0
    } else {
        sat_add(
            sum_terms(term, ctx, line, items, lo, hi - 1),
            term_value(term, ctx, line, items[hi - 1]),
        )
    }
}

/// The largest value of an extent among the items with indices from `lo` up
/// to `hi`; zero where there is none.
pub open spec fn max_extent(extent: Extent, ctx: FlexCtx, items: Seq<FlexItem>, lo: int, hi: int) -> i64
    decreases hi - lo,
{
    if hi <= lo {
        0
    } else {
        max(
            max_extent(extent, ctx, items, lo, hi - 1),
            extent_value(extent, ctx, items[hi - 1]),
        )
    }
}

/// Sums a term over the items with indices from `lo` up to `hi`.
pub fn sum_terms_exec(
    term: Term,
    ctx: FlexCtx,
    line: Line,
    items: &Vec<FlexItem>,
    lo: usize,
    hi: usize,
) -> (r: i64)
    requires
        hi <= items.len(),
    ensures
        r == sum_terms(term, ctx, line, items@, lo as int, hi as int),
{
    let mut acc: i64 = 0;
    let mut i: usize = lo;
    while i < hi
        invariant
            hi <= items.len(),
            lo <= i,
            i <= hi || hi <= lo,
            acc == sum_terms(term, ctx, line, items@, lo as int, if hi <= lo { lo as int } else { i as int }),
        decreases hi - i,
    {
        acc = sat_add(acc, term_value(term, ctx, line, items[i]));
        i = i + 1;
    }
    acc
}

/// Takes the largest value of an extent among the items with indices from
/// `lo` up to `hi`.
pub fn max_extent_exec(extent: Extent, ctx: FlexCtx, items: &Vec<FlexItem>, lo: usize, hi: usize) -> (r: i64)
    requires
        hi <= items.len(),
    ensures
        r == max_extent(extent, ctx, items@, lo as int, hi as int),
{
    let mut acc: i64 = 0;
    let mut i: usize = lo;
    while i < hi
        invariant
            hi <= items.len(),
            lo <= i,
            i <= hi || hi <= lo,
            acc == max_extent(extent, ctx, items@, lo as int, if hi <= lo { lo as int } else { i as int }),
        decreases hi - i,
    {
        acc = max(acc, extent_value(extent, ctx, items[i]));
        i = i + 1;
    }
    acc
}

/// The gaps between `count` items on a line, taken together.
pub open spec fn spec_gaps(gap: i64, count: i64) -> i64 {
    mul_div(gap, max(sat_sub(count, 1), 0), 1)
}

/// The gaps between `count` items on a line, taken together.
#[verifier::when_used_as_spec(spec_gaps)]
pub fn gaps(gap: i64, count: i64) -> (r: i64)
    ensures
        r == spec_gaps(gap, count),
{
    mul_div(gap, max(sat_sub(count, 1), 0), 1)
}

/// The line an item lies on; a line without items where the item's index of
/// a line is out of range.
pub open spec fn line_of(lines: Seq<Line>, item: FlexItem) -> Line {
    if item.line < lines.len() {
        lines[item.line as int]
    } else {
        make_line(0, 0)
    }
}

/// The line an item lies on.
pub fn line_of_exec(lines: &Vec<Line>, item: FlexItem) -> (line: Line)
    ensures
        line == line_of(lines@, item),
{
    if item.line < lines.len() {
        lines[item.line]
    } else {
        make_line(0, 0)
    }
}

} // verus!
