//! The steps of the flexbox algorithm that work on whole lines: collecting
//! the items into lines, the sums kept for each line, and the running sums
//! that place items and lines one after another.

use vstd::prelude::*;
use crate::compute::common::{content_distribution, cross_of, main_of, main_sum, space_before};
use crate::compute::flex_model::{
    gaps, line_of, line_of_exec, make_line, max_extent, max_extent_exec, sum_terms,
    sum_terms_exec, term_value, Extent, FlexCtx, FlexItem, ItemKind, Line, Term,
};
use crate::fixed::{max, mul_div, sat_add, sat_sub, LIMIT};
use crate::style::{AvailableSpace, FlexWrap};

verus! {

/// A step of the algorithm that changes one line at a time.
#[derive(Clone, Copy, Debug, PartialEq, Eq, Structural)]
pub enum LineStage {
    /// Counts the items of the line and sums their hypothetical outer main
    /// sizes and the gaps between them.
    Measure,
    /// Decides whether the line grows: its length is less than the main
    /// size of the content box.
    Direction,
    /// Computes the free space of the line while flexible lengths are
    /// resolved, and the sum of the flex factors of its unfrozen items.
    Free,
    /// Sums the violations of the unfrozen items.
    Violation,
    /// Sets the cross size of the line and its largest ascent. The one
    /// line of a container that does not wrap and whose cross size is known
    /// takes that size; any other line is as large as its largest item, and
    /// at least as large as the largest ascent and descent together.
    CrossSize,
    /// Adds the first argument to the cross size.
    Stretch,
    /// Sums the outer target main sizes and counts the `Auto` main margins,
    /// and computes the free space that is left for alignment.
    Used,
    /// Sets the offset of the line along the cross axis. The first argument
    /// is the sum of the cross sizes of all lines, the second their number.
    /// Lines follow one another in visual order, which with reversed
    /// wrapping is the reverse of their order; `align_content` shares out
    /// the free cross space.
    Offset,
}

/// The index behind the last item of a line, held within the items.
pub open spec fn spec_line_end(len: usize, line: Line) -> usize {
    if line.end > len {
        len
    } else {
        line.end
    }
}

/// The index behind the last item of a line, held within the items.
#[verifier::when_used_as_spec(spec_line_end)]
pub fn line_end(len: usize, line: Line) -> (r: usize)
    ensures
        r == spec_line_end(len, line),
        r <= len,
{
    if line.end > len {
        len
    } else {
        line.end
    }
}

/// The offset of a line along the cross axis, given the sum `total` of the
/// cross sizes of all lines and their number `lines`.
pub open spec fn spec_line_offset(ctx: FlexCtx, line: Line, total: i64, lines: i64) -> i64 {
    let reverse = ctx.wrap == FlexWrap::WrapReverse;
    let rank = if reverse {
        sat_sub(sat_sub(lines, 1), line.rank)
    } else {
        line.rank
    };
    let preceding = if reverse {
        sat_sub(sat_sub(total, line.before), line.cross)
    } else {
        line.before
    };
    let free = sat_sub(ctx.inner_cross, sat_add(total, gaps(ctx.gap_cross, lines)));
    sat_add(
        sat_add(preceding, mul_div(ctx.gap_cross, rank, 1)),
        space_before(content_distribution(ctx.align_content, reverse), free, lines, rank),
    )
}

/// The offset of a line along the cross axis.
#[verifier::when_used_as_spec(spec_line_offset)]
pub fn line_offset(ctx: FlexCtx, line: Line, total: i64, lines: i64) -> (r: i64)
    ensures
        r == spec_line_offset(ctx, line, total, lines),
{
    let reverse = ctx.wrap == FlexWrap::WrapReverse;
    let rank = if reverse {
        sat_sub(sat_sub(lines, 1), line.rank)
    } else {
        line.rank
    };
    let preceding = if reverse {
        sat_sub(sat_sub(total, line.before), line.cross)
    } else {
        line.before
    };
    let free = sat_sub(ctx.inner_cross, sat_add(total, gaps(ctx.gap_cross, lines)));
    sat_add(
        sat_add(preceding, mul_div(ctx.gap_cross, rank, 1)),
        space_before(content_distribution(ctx.align_content, reverse), free, lines, rank),
    )
}

/// The line after a step.
pub open spec fn line_apply(
    stage: LineStage,
    ctx: FlexCtx,
    items: Seq<FlexItem>,
    line: Line,
    a: i64,
    b: i64,
) -> Line {
    let lo = line.start as int;
    let hi = line_end(items.len() as usize, line) as int;
    match stage {
        LineStage::Measure => {
            let count = sum_terms(Term::Count, ctx, line, items, lo, hi);
            Line {
                count,
                length: sat_add(
                    sum_terms(Term::OuterHypothetical, ctx, line, items, lo, hi),
                    gaps(ctx.gap_main, count),
                ),
                ..line
            }
        },
        LineStage::Direction => Line { growing: line.length < ctx.inner_main, ..line },
        LineStage::Free => Line {
            free: sat_sub(
                sat_sub(ctx.inner_main, sum_terms(Term::Occupied, ctx, line, items, lo, hi)),
                gaps(ctx.gap_main, line.count),
            ),
            factor_sum: sum_terms(Term::Factor, ctx, line, items, lo, hi),
            ..line
        },
        LineStage::Violation => Line {
            violation: sum_terms(Term::Violation, ctx, line, items, lo, hi),
            ..line
        },
        LineStage::CrossSize => {
            let ascent = max_extent(Extent::Ascent, ctx, items, lo, hi);
            let content = max(
                max_extent(Extent::OuterCross, ctx, items, lo, hi),
                sat_add(ascent, max_extent(Extent::Descent, ctx, items, lo, hi)),
            );
            Line {
                ascent,
                cross: match cross_of(ctx.inner, ctx.row) {
                    Some(c) => if ctx.wrap == FlexWrap::NoWrap {
                        c
                    } else {
                        content
                    },
                    None => content,
                },
                ..line
            }
        },
        LineStage::Stretch => Line { cross: sat_add(line.cross, a), ..line },
        LineStage::Used => {
            let targets = sum_terms(Term::OuterTarget, ctx, line, items, lo, hi);
            Line {
                targets,
                free: sat_sub(ctx.inner_main, sat_add(targets, gaps(ctx.gap_main, line.count))),
                autos: sum_terms(Term::AutoMargins, ctx, line, items, lo, hi),
                ..line
            }
        },
        LineStage::Offset => Line { offset: line_offset(ctx, line, a, b), ..line },
    }
}

/// Applies a step to one line.
pub fn line_apply_exec(
    stage: LineStage,
    ctx: FlexCtx,
    items: &Vec<FlexItem>,
    line: Line,
    a: i64,
    b: i64,
) -> (r: Line)
    ensures
        r == line_apply(stage, ctx, items@, line, a, b),
{
    let lo = line.start;
    let hi = line_end(items.len(), line);
    match stage {
        LineStage::Measure => {
            let count = sum_terms_exec(Term::Count, ctx, line, items, lo, hi);
            Line {
                count,
                length: sat_add(
                    sum_terms_exec(Term::OuterHypothetical, ctx, line, items, lo, hi),
                    gaps(ctx.gap_main, count),
                ),
                ..line
            }
        },
        LineStage::Direction => Line { growing: line.length < ctx.inner_main, ..line },
        LineStage::Free => Line {
            free: sat_sub(
                sat_sub(ctx.inner_main, sum_terms_exec(Term::Occupied, ctx, line, items, lo, hi)),
                gaps(ctx.gap_main, line.count),
            ),
            factor_sum: sum_terms_exec(Term::Factor, ctx, line, items, lo, hi),
            ..line
        },
        LineStage::Violation => Line {
            violation: sum_terms_exec(Term::Violation, ctx, line, items, lo, hi),
            ..line
        },
        LineStage::CrossSize => {
            let ascent = max_extent_exec(Extent::Ascent, ctx, items, lo, hi);
            let content = max(
                max_extent_exec(Extent::OuterCross, ctx, items, lo, hi),
                sat_add(ascent, max_extent_exec(Extent::Descent, ctx, items, lo, hi)),
            );
            Line {
                ascent,
                cross: match cross_of(ctx.inner, ctx.row) {
                    Some(c) => if ctx.wrap == FlexWrap::NoWrap {
                        c
                    } else {
                        content
                    },
                    None => content,
                },
                ..line
            }
        },
        LineStage::Stretch => Line { cross: sat_add(line.cross, a), ..line },
        LineStage::Used => {
            let targets = sum_terms_exec(Term::OuterTarget, ctx, line, items, lo, hi);
            Line {
                targets,
                free: sat_sub(ctx.inner_main, sat_add(targets, gaps(ctx.gap_main, line.count))),
                autos: sum_terms_exec(Term::AutoMargins, ctx, line, items, lo, hi),
                ..line
            }
        },
        LineStage::Offset => Line { offset: line_offset(ctx, line, a, b), ..line },
    }
}

/// The lines after a step has been applied to each.
#[verifier::opaque]
pub open spec fn spec_line_pass(
    stage: LineStage,
    ctx: FlexCtx,
    items: Seq<FlexItem>,
    lines: Seq<Line>,
    a: i64,
    b: i64,
) -> Seq<Line> {
    Seq::new(lines.len(), |k: int| line_apply(stage, ctx, items, lines[k], a, b))
}

/// Applies a step to each line.
pub fn line_pass(
    stage: LineStage,
    ctx: FlexCtx,
    items: &Vec<FlexItem>,
    lines: &Vec<Line>,
    a: i64,
    b: i64,
) -> (out: Vec<Line>)
    ensures
        out@ == spec_line_pass(stage, ctx, items@, lines@, a, b),
{
    let mut out: Vec<Line> = Vec::new();
    let mut k: usize = 0;
    while k < lines.len()
        invariant
            k <= lines.len(),
            out.len() == k,
            forall|j: int| 0 <= j < k ==> out[j] == line_apply(stage, ctx, items@, lines[j], a, b),
        decreases lines.len() - k,
    {
        out.push(line_apply_exec(stage, ctx, items, lines[k], a, b));
        k = k + 1;
    }
    proof {
        reveal(spec_line_pass);
    }
    assert(out@ =~= spec_line_pass(stage, ctx, items@, lines@, a, b));
    out
}

/// The length of the longest of the first `upto` lines; zero where there is
/// none.
pub open spec fn longest(lines: Seq<Line>, upto: int) -> i64
    decreases upto,
{
    if upto <= 0 {
        0
    } else {
        max(longest(lines, upto - 1), lines[upto - 1].length)
    }
}

/// The cross sizes of the first `upto` lines, summed.
pub open spec fn cross_total(lines: Seq<Line>, upto: int) -> i64
    decreases upto,
{
    if upto <= 0 {
        0
    } else {
        sat_add(cross_total(lines, upto - 1), lines[upto - 1].cross)
    }
}

/// Finds the length of the longest line.
pub fn longest_exec(lines: &Vec<Line>) -> (r: i64)
    ensures
        r == longest(lines@, lines@.len() as int),
{
    let mut acc: i64 = 0;
    let mut k: usize = 0;
    while k < lines.len()
        invariant
            k <= lines.len(),
            acc == longest(lines@, k as int),
        decreases lines.len() - k,
    {
        acc = max(acc, lines[k].length);
        k = k + 1;
    }
    acc
}

/// A count or an index as a number, saturated at `LIMIT`.
pub open spec fn spec_number(n: usize) -> i64 {
    if n > LIMIT {
        LIMIT
    } else {
        n as i64
    }
}

/// A count or an index as a number, saturated at `LIMIT`.
#[verifier::when_used_as_spec(spec_number)]
pub fn number(n: usize) -> (r: i64)
    ensures
        r == spec_number(n),
{
    if n as u128 > LIMIT as u128 {
        LIMIT
    } else {
        n as i64
    }
}

/// The lines, each with its index and with the sum of the cross sizes of the
/// lines before it.
#[verifier::opaque]
pub open spec fn spec_rank_lines(lines: Seq<Line>) -> Seq<Line> {
    Seq::new(
        lines.len(),
        |k: int| Line { rank: number(k as usize), before: cross_total(lines, k), ..lines[k] },
    )
}

/// Gives each line its index and the sum of the cross sizes of the lines
/// before it; returns the lines and the sum of all cross sizes.
pub fn rank_lines(lines: &Vec<Line>) -> (out: (Vec<Line>, i64))
    ensures
        out.0@ == spec_rank_lines(lines@),
        out.1 == cross_total(lines@, lines@.len() as int),
{
    let mut ranked: Vec<Line> = Vec::new();
    let mut acc: i64 = 0;
    let mut k: usize = 0;
    while k < lines.len()
        invariant
            k <= lines.len(),
            ranked.len() == k,
            acc == cross_total(lines@, k as int),
            forall|j: int|
                0 <= j < k ==> ranked[j] == (Line {
                    rank: number(j as usize),
                    before: cross_total(lines@, j),
                    ..lines[j]
                }),
        decreases lines.len() - k,
    {
        let line = lines[k];
        ranked.push(Line { rank: number(k), before: acc, ..line });
        acc = sat_add(acc, line.cross);
        k = k + 1;
    }
    proof {
        reveal(spec_rank_lines);
    }
    assert(ranked@ =~= spec_rank_lines(lines@));
    (ranked, acc)
}

/// The sum of a term over the items of the line of `items[index]` that come
/// before it.
pub open spec fn sum_before(
    term: Term,
    ctx: FlexCtx,
    items: Seq<FlexItem>,
    lines: Seq<Line>,
    index: int,
) -> i64 {
    sum_terms(term, ctx, make_line(0, 0), items, line_of(lines, items[index]).start as int, index)
}

/// The items, each with the number, the outer target main sizes and the
/// `Auto` main margins of the flow items before it on its line.
#[verifier::opaque]
pub open spec fn spec_rank_items(ctx: FlexCtx, items: Seq<FlexItem>, lines: Seq<Line>) -> Seq<
    FlexItem,
> {
    Seq::new(
        items.len(),
        |i: int|
            FlexItem {
                rank: sum_before(Term::Count, ctx, items, lines, i),
                before: sum_before(Term::OuterTarget, ctx, items, lines, i),
                autos_before: sum_before(Term::AutoMargins, ctx, items, lines, i),
                ..items[i]
            },
    )
}

/// Gives each item the number, the outer target main sizes and the `Auto`
/// main margins of the flow items before it on its line.
pub fn rank_items(ctx: FlexCtx, items: &Vec<FlexItem>, lines: &Vec<Line>) -> (out: Vec<FlexItem>)
    ensures
        out@ == spec_rank_items(ctx, items@, lines@),
{
    let blank = make_line(0, 0);
    let mut out: Vec<FlexItem> = Vec::new();
    let mut from: usize = 0;
    let mut rank: i64 = 0;
    let mut before: i64 = 0;
    let mut autos: i64 = 0;
    let mut i: usize = 0;
    while i < items.len()
        invariant
            i <= items.len(),
            out.len() == i,
            blank == make_line(0, 0),
            rank == sum_terms(Term::Count, ctx, blank, items@, from as int, i as int),
            before == sum_terms(Term::OuterTarget, ctx, blank, items@, from as int, i as int),
            autos == sum_terms(Term::AutoMargins, ctx, blank, items@, from as int, i as int),
            forall|k: int|
                0 <= k < i ==> out[k] == (FlexItem {
                    rank: sum_before(Term::Count, ctx, items@, lines@, k),
                    before: sum_before(Term::OuterTarget, ctx, items@, lines@, k),
                    autos_before: sum_before(Term::AutoMargins, ctx, items@, lines@, k),
                    ..items[k]
                }),
        decreases items.len() - i,
    {
        let item = items[i];
        let start = line_of_exec(lines, item).start;
        if start != from {
            from = start;
            if start >= i {
                rank = 0;
                before = 0;
                autos = 0;
            } else {
                rank = sum_terms_exec(Term::Count, ctx, blank, items, start, i);
                before = sum_terms_exec(Term::OuterTarget, ctx, blank, items, start, i);
                autos = sum_terms_exec(Term::AutoMargins, ctx, blank, items, start, i);
            }
        }
        assert(rank == sum_terms(Term::Count, ctx, blank, items@, from as int, i as int));
        assert(before == sum_terms(Term::OuterTarget, ctx, blank, items@, from as int, i as int));
        assert(autos == sum_terms(Term::AutoMargins, ctx, blank, items@, from as int, i as int));
        out.push(FlexItem { rank, before, autos_before: autos, ..item });
        if from <= i {
            rank = sat_add(rank, term_value(Term::Count, ctx, blank, item));
            before = sat_add(before, term_value(Term::OuterTarget, ctx, blank, item));
            autos = sat_add(autos, term_value(Term::AutoMargins, ctx, blank, item));
        }
        i = i + 1;
    }
    proof {
        reveal(spec_rank_items);
    }
    assert(out@ =~= spec_rank_items(ctx, items@, lines@));
    out
}

/// What is known of the lines after some of the items have been collected:
/// the lines that are closed, and of the open line the index of its first
/// item, the length it has reached and the number of its flow items.
pub struct Collected {
    pub closed: Seq<Line>,
    pub start: usize,
    pub length: i64,
    pub count: i64,
}

/// The length of the open line if `item` joined it.
pub open spec fn spec_extended(ctx: FlexCtx, item: FlexItem, length: i64, count: i64) -> i64 {
    let outer = sat_add(item.hypothetical_main, main_sum(item.margin, ctx.row));
    if count > 0 {
        sat_add(sat_add(length, ctx.gap_main), outer)
    } else {
        outer
    }
}

/// The length of the open line if `item` joined it.
#[verifier::when_used_as_spec(spec_extended)]
pub fn extended(ctx: FlexCtx, item: FlexItem, length: i64, count: i64) -> (r: i64)
    ensures
        r == spec_extended(ctx, item, length, count),
{
    let outer = sat_add(item.hypothetical_main, main_sum(item.margin, ctx.row));
    if count > 0 {
        sat_add(sat_add(length, ctx.gap_main), outer)
    } else {
        outer
    }
}

/// Whether a new line starts at `item`: the container wraps, the open line
/// holds an item already, and `item` would make it longer than the space
/// for the items. Under a min-content constraint every item starts a line;
/// under a max-content constraint none does.
pub open spec fn spec_breaks_line(ctx: FlexCtx, item: FlexItem, length: i64, count: i64) -> bool {
    ctx.wrap != FlexWrap::NoWrap && item.kind == ItemKind::Flow && count > 0 && match main_of(
        ctx.available,
        ctx.row,
    ) {
        AvailableSpace::Definite(space) => extended(ctx, item, length, count) > space,
        AvailableSpace::MinContent => true,
        AvailableSpace::MaxContent => false,
    }
}

/// Whether a new line starts at `item`.
#[verifier::when_used_as_spec(spec_breaks_line)]
pub fn breaks_line(ctx: FlexCtx, item: FlexItem, length: i64, count: i64) -> (r: bool)
    ensures
        r == spec_breaks_line(ctx, item, length, count),
{
    ctx.wrap != FlexWrap::NoWrap && item.kind == ItemKind::Flow && count > 0 && match main_of(
        ctx.available,
        ctx.row,
    ) {
        AvailableSpace::Definite(space) => extended(ctx, item, length, count) > space,
        AvailableSpace::MinContent => true,
        AvailableSpace::MaxContent => false,
    }
}

/// The lines after the first `upto` items have been collected, greedily and
/// in order.
pub open spec fn collect(ctx: FlexCtx, items: Seq<FlexItem>, upto: int) -> Collected
    decreases upto,
{
    if upto <= 0 {
        Collected { closed: Seq::empty(), start: 0, length: 0, count: 0 }
    } else {
        let c = collect(ctx, items, upto - 1);
        let item = items[upto - 1];
        if breaks_line(ctx, item, c.length, c.count) {
            Collected {
                closed: c.closed.push(make_line(c.start, (upto - 1) as usize)),
                start: (upto - 1) as usize,
                length: extended(ctx, item, 0, 0),
                count: 1,
            }
        } else if item.kind == ItemKind::Flow {
            Collected {
                length: extended(ctx, item, c.length, c.count),
                count: sat_add(c.count, 1),
                ..c
            }
        } else {
            c
        }
    }
}

/// The lines of a container: the closed lines and the last, open one.
#[verifier::opaque]
pub open spec fn spec_collected_lines(ctx: FlexCtx, items: Seq<FlexItem>) -> Seq<Line> {
    let c = collect(ctx, items, items.len() as int);
    c.closed.push(make_line(c.start, items.len() as usize))
}

/// The items, each with the index of its line.
#[verifier::opaque]
pub open spec fn spec_assigned_items(ctx: FlexCtx, items: Seq<FlexItem>) -> Seq<FlexItem> {
    Seq::new(
        items.len(),
        |i: int| FlexItem { line: collect(ctx, items, i + 1).closed.len() as usize, ..items[i] },
    )
}

/// Collects the items into lines, greedily and in order. Returns the items,
/// each with the index of its line, and the lines.
pub fn collect_flex_lines(ctx: FlexCtx, items: &Vec<FlexItem>) -> (out: (Vec<FlexItem>, Vec<Line>))
    ensures
        out.0@ == spec_assigned_items(ctx, items@),
        out.1@ == spec_collected_lines(ctx, items@),
{
    let mut assigned: Vec<FlexItem> = Vec::new();
    let mut lines: Vec<Line> = Vec::new();
    let mut start: usize = 0;
    let mut length: i64 = 0;
    let mut count: i64 = 0;
    let mut i: usize = 0;
    while i < items.len()
        invariant
            i <= items.len(),
            assigned.len() == i,
            lines.len() <= i,
            collect(ctx, items@, i as int) == (Collected {
                closed: lines@,
                start,
                length,
                count,
            }),
            forall|k: int|
                0 <= k < i ==> assigned[k] == (FlexItem {
                    line: collect(ctx, items@, k + 1).closed.len() as usize,
                    ..items[k]
                }),
        decreases items.len() - i,
    {
        let item = items[i];
        if breaks_line(ctx, item, length, count) {
            lines.push(make_line(start, i));
            start = i;
            length = extended(ctx, item, 0, 0);
            count = 1;
        } else if item.kind == ItemKind::Flow {
            length = extended(ctx, item, length, count);
            count = sat_add(count, 1);
        }
        assigned.push(FlexItem { line: lines.len(), ..item });
        i = i + 1;
    }
    lines.push(make_line(start, items.len()));
    proof {
        reveal(spec_collected_lines);
    }
    proof {
        reveal(spec_assigned_items);
    }
    assert(assigned@ =~= spec_assigned_items(ctx, items@));
    (assigned, lines)
}

} // verus!
