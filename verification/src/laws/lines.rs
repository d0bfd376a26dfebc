//! The items of a line and the space between them fill the main size of
//! the container.

use vstd::prelude::*;
use crate::compute::common::{
    justify_distribution, main_start, main_sum, space_before, Distribution,
};
use crate::compute::flex_lines::{line_apply, line_end, spec_rank_items, LineStage};
use crate::compute::flex_model::{
    gaps, line_of, make_line, sum_terms, term_value, FlexCtx, FlexItem, ItemKind, Line, Term,
};
use crate::compute::flex_steps::main_position;
use crate::fixed::{max, mul_div, sat_add, sat_sub, LIMIT};

verus! {

/// A magnitude up to which a handful of lengths can be added without
/// reaching the limit.
pub const REACH: i64 = 0x0400_0000_0000_0000;

/// Whether a length is small enough to be added to a handful of others
/// without reaching the limit.
pub open spec fn modest(x: int) -> bool {
    -REACH <= x <= REACH
}

/// A share of a length that is not negative is not negative and not more
/// than the length.
pub proof fn lemma_share_is_within(space: i64, part: i64, whole: i64)
    requires
        0 <= space <= LIMIT,
        0 <= part <= whole,
        0 < whole,
    ensures
        0 <= mul_div(space, part, whole) <= space,
{
    let product = space * part;
    assert(0 <= product <= space * whole) by (nonlinear_arith)
        requires
            0 <= space,
            0 <= part <= whole,
            product == space * part,
    ;
    assert(0 <= product / (whole as int) <= space) by (nonlinear_arith)
        requires
            0 <= product <= space * whole,
            0 < whole,
    ;
}

/// A larger share of a length is not less than a smaller one.
pub proof fn lemma_share_is_monotone(space: i64, part: i64, more: i64, whole: i64)
    requires
        0 <= space <= LIMIT,
        0 <= part <= more,
        more <= whole,
        0 < whole,
    ensures
        mul_div(space, part, whole) <= mul_div(space, more, whole),
{
    lemma_share_is_within(space, part, whole);
    lemma_share_is_within(space, more, whole);
    let a = space * part;
    let b = space * more;
    assert(0 <= a <= b) by (nonlinear_arith)
        requires
            0 <= space,
            0 <= part <= more,
            a == space * part,
            b == space * more,
    ;
    assert(a / (whole as int) <= b / (whole as int)) by (nonlinear_arith)
        requires
            0 <= a <= b,
            0 < whole,
    ;
}

/// The whole of a length is all of it.
pub proof fn lemma_whole_share(space: i64, whole: i64)
    requires
        0 <= space <= LIMIT,
        0 < whole,
    ensures
        mul_div(space, whole, whole) == space,
        mul_div(space, 0, whole) == 0,
{
    let product = space * whole;
    assert(product / (whole as int) == space) by (nonlinear_arith)
        requires
            product == space * whole,
            0 < whole,
    ;
    assert(space * 0 == 0);
}

/// The space before an item is not negative and not more than the free
/// space of the line.
pub proof fn lemma_space_before_is_within(d: Distribution, free: i64, total: i64, rank: i64)
    requires
        0 <= rank < total <= REACH,
        free <= LIMIT,
    ensures
        0 <= space_before(d, free, total, rank) <= max(free, 0),
{
    let space = max(free, 0);
    match d {
        Distribution::Start => {},
        Distribution::End => {},
        Distribution::Center => {
            lemma_share_is_within(space, 1, 2);
        },
        Distribution::SpaceBetween => {
            if total > 1 {
                lemma_share_is_within(space, rank, sat_sub(total, 1));
            }
        },
        Distribution::SpaceEvenly => {
            lemma_share_is_within(space, sat_add(rank, 1), sat_add(total, 1));
        },
        Distribution::SpaceAround => {
            lemma_share_is_within(space, sat_add(sat_add(rank, rank), 1), sat_add(total, total));
        },
    }
}

/// The space before an item is not less than the space before the item in
/// front of it: free space is never taken back.
pub proof fn lemma_space_before_is_monotone(d: Distribution, free: i64, total: i64, rank: i64)
    requires
        0 <= rank,
        rank + 1 < total <= REACH,
        free <= LIMIT,
    ensures
        space_before(d, free, total, rank) <= space_before(d, free, total, (rank + 1) as i64),
{
    let space = max(free, 0);
    let next = (rank + 1) as i64;
    match d {
        Distribution::Start => {},
        Distribution::End => {},
        Distribution::Center => {},
        Distribution::SpaceBetween => {
            lemma_share_is_monotone(space, rank, next, sat_sub(total, 1));
        },
        Distribution::SpaceEvenly => {
            lemma_share_is_monotone(space, sat_add(rank, 1), sat_add(next, 1), sat_add(total, 1));
        },
        Distribution::SpaceAround => {
            lemma_share_is_monotone(
                space,
                sat_add(sat_add(rank, rank), 1),
                sat_add(sat_add(next, next), 1),
                sat_add(total, total),
            );
        },
    }
}

/// With space shared out between the items, the first item of a line lies
/// at its start and the last has all the free space before it, so that it
/// ends at the end of the line. With all space at the start or the end, so
/// do all items.
pub proof fn lemma_space_before_at_the_ends(free: i64, total: i64, rank: i64)
    requires
        0 <= rank < total <= REACH,
        0 <= free <= LIMIT,
    ensures
        space_before(Distribution::Start, free, total, rank) == 0,
        space_before(Distribution::End, free, total, rank) == free,
        space_before(Distribution::SpaceBetween, free, total, 0) == 0,
        total > 1 ==> space_before(Distribution::SpaceBetween, free, total, (total - 1) as i64)
            == free,
{
    if total > 1 {
        lemma_whole_share(free, sat_sub(total, 1));
    }
}

/// The outer target main size of an item: its target main size with its
/// margins.
pub open spec fn outer_target(ctx: FlexCtx, item: FlexItem) -> i64 {
    sat_add(item.target_main, main_sum(item.margin, ctx.row))
}

/// The position of the margin box of an item along the main axis.
pub open spec fn margin_box_start(ctx: FlexCtx, item: FlexItem, line: Line) -> int {
    main_position(ctx, item, line) - main_start(item.margin, ctx.row)
}

/// Whether the lengths of an item and its line are small enough to be added
/// without reaching the limit.
pub open spec fn modest_item(ctx: FlexCtx, item: FlexItem, line: Line) -> bool {
    &&& modest(item.target_main as int)
    &&& modest(main_start(item.margin, ctx.row) as int)
    &&& modest(crate::compute::common::main_end(item.margin, ctx.row) as int)
    &&& modest(item.before as int)
    &&& modest(line.targets as int)
    &&& modest(line.free as int)
    &&& modest(ctx.inner_main as int)
    &&& 0 <= item.rank < line.count <= REACH
    &&& modest(ctx.gap_main * line.count)
    &&& 0 <= ctx.gap_main
}

/// Whether the free space of the line is shared out by `justify_content`
/// and the items are placed in declared order: the direction is not
/// reversed, and the line has no free space that `Auto` margins take.
pub open spec fn justified(ctx: FlexCtx, line: Line) -> bool {
    !ctx.reverse && !(line.free > 0 && line.autos > 0)
}

/// The gaps before the item of a given rank, taken together.
pub proof fn lemma_gaps_before(gap: i64, rank: i64, count: i64)
    requires
        0 <= gap,
        0 <= rank < count <= REACH,
        modest(gap * count),
    ensures
        mul_div(gap, rank, 1) == gap * rank,
        0 <= gap * rank <= gap * count,
        gaps(gap, count) == gap * (count - 1),
{
    let least = max(sat_sub(count, 1), 0);
    assert(least == count - 1);
    assert(gap * least == gap * (count - 1)) by (nonlinear_arith)
        requires
            least == count - 1,
    ;
    assert(0 <= gap * rank <= gap * count) by (nonlinear_arith)
        requires
            0 <= gap,
            0 <= rank < count,
    ;
    assert(0 <= gap * (count - 1) <= gap * count) by (nonlinear_arith)
        requires
            0 <= gap,
            0 <= rank < count,
    ;
}

/// The position of the margin box of an item: behind the margin boxes of
/// the items before it, the gaps between them and the space that
/// `justify_content` puts before it.
pub proof fn lemma_margin_box_start(ctx: FlexCtx, item: FlexItem, line: Line)
    requires
        justified(ctx, line),
        modest_item(ctx, item, line),
    ensures
        margin_box_start(ctx, item, line) == item.before + ctx.gap_main * item.rank + space_before(
            justify_distribution(ctx.justify_content, ctx.reverse),
            line.free,
            line.count,
            item.rank,
        ),
{
    lemma_gaps_before(ctx.gap_main, item.rank, line.count);
    lemma_space_before_is_within(
        justify_distribution(ctx.justify_content, ctx.reverse),
        line.free,
        line.count,
        item.rank,
    );
}

/// Items follow one another without overlap.
///
/// Let `next` come directly behind `item` on a line whose free space
/// `justify_content` shares out. Then the margin box of `next` starts
/// where that of `item` ends, plus the gap and the space that
/// `justify_content` puts between the two, which is not negative.
pub proof fn lemma_next_item_follows(ctx: FlexCtx, item: FlexItem, next: FlexItem, line: Line)
    requires
        justified(ctx, line),
        modest_item(ctx, item, line),
        modest_item(ctx, next, line),
        next.rank == item.rank + 1,
        next.before == item.before + outer_target(ctx, item),
    ensures
        ({
            let d = justify_distribution(ctx.justify_content, ctx.reverse);
            let between = space_before(d, line.free, line.count, next.rank) - space_before(
                d,
                line.free,
                line.count,
                item.rank,
            );
            &&& between >= 0
            &&& margin_box_start(ctx, next, line) == margin_box_start(ctx, item, line)
                + outer_target(ctx, item) + ctx.gap_main + between
        }),
{
    lemma_margin_box_start(ctx, item, line);
    lemma_margin_box_start(ctx, next, line);
    lemma_space_before_is_monotone(
        justify_distribution(ctx.justify_content, ctx.reverse),
        line.free,
        line.count,
        item.rank,
    );
    assert(ctx.gap_main * next.rank == ctx.gap_main * item.rank + ctx.gap_main)
        by (nonlinear_arith)
        requires
            next.rank == item.rank + 1,
    ;
}

/// The items of a line, the gaps and the space between them fill the main
/// size of the container.
///
/// Let `item` be the last item of a line whose free space is not negative
/// and is shared out by `justify_content`, so that the margin boxes of all
/// items of the line end with that of `item`. The free space of the line
/// is what the outer sizes of its items and the gaps between them leave of
/// the main size of the content box. Then the end of the margin box of
/// `item`, plus the space that `justify_content` leaves behind it, is the
/// main size of the content box; and that space is not negative, so that no
/// item reaches beyond the content box.
pub proof fn lemma_line_fills_main_size(ctx: FlexCtx, item: FlexItem, line: Line)
    requires
        justified(ctx, line),
        modest_item(ctx, item, line),
        item.rank + 1 == line.count,
        item.before + outer_target(ctx, item) == line.targets,
        line.free == sat_sub(ctx.inner_main, sat_add(line.targets, gaps(ctx.gap_main, line.count))),
        line.free >= 0,
    ensures
        ({
            let d = justify_distribution(ctx.justify_content, ctx.reverse);
            let behind = line.free - space_before(d, line.free, line.count, item.rank);
            &&& behind >= 0
            &&& margin_box_start(ctx, item, line) + outer_target(ctx, item) + behind
                == ctx.inner_main
        }),
{
    lemma_margin_box_start(ctx, item, line);
    lemma_gaps_before(ctx.gap_main, item.rank, line.count);
    lemma_space_before_is_within(
        justify_distribution(ctx.justify_content, ctx.reverse),
        line.free,
        line.count,
        item.rank,
    );
}

/// The free space that a line is left for alignment is what its items and
/// gaps leave of the main size of the content box, and the sum it keeps is
/// the sum of the outer target main sizes of its items.
pub proof fn lemma_used_line(ctx: FlexCtx, items: Seq<FlexItem>, line: Line)
    ensures
        ({
            let used = line_apply(LineStage::Used, ctx, items, line, 0, 0);
            &&& used.count == line.count
            &&& used.targets == sum_terms(
                Term::OuterTarget,
                ctx,
                line,
                items,
                line.start as int,
                line_end(items.len() as usize, line) as int,
            )
            &&& used.free == sat_sub(
                ctx.inner_main,
                sat_add(used.targets, gaps(ctx.gap_main, used.count)),
            )
        }),
{
}

/// Whether a sum does not depend on the line it is taken for.
pub open spec fn plain(term: Term) -> bool {
    term == Term::Count || term == Term::OuterHypothetical || term == Term::OuterTarget || term
        == Term::AutoMargins
}

/// A sum of counts or sizes is the same whatever line it is taken for.
pub proof fn lemma_sum_ignores_line(
    term: Term,
    ctx: FlexCtx,
    a: Line,
    b: Line,
    items: Seq<FlexItem>,
    lo: int,
    hi: int,
)
    requires
        plain(term),
    ensures
        sum_terms(term, ctx, a, items, lo, hi) == sum_terms(term, ctx, b, items, lo, hi),
    decreases hi - lo,
{
    if hi > lo {
        lemma_sum_ignores_line(term, ctx, a, b, items, lo, hi - 1);
    }
}

/// Children that are not in the flow add nothing to a sum.
pub proof fn lemma_sum_skips_others(
    term: Term,
    ctx: FlexCtx,
    line: Line,
    items: Seq<FlexItem>,
    lo: int,
    from: int,
    hi: int,
)
    requires
        lo <= from <= hi,
        forall|k: int| from <= k < hi ==> (#[trigger] items[k]).kind != ItemKind::Flow,
    ensures
        sum_terms(term, ctx, line, items, lo, hi) == sum_terms(term, ctx, line, items, lo, from),
    decreases hi - from,
{
    if hi > from {
        lemma_sum_skips_others(term, ctx, line, items, lo, from, hi - 1);
        assert(items[hi - 1].kind != ItemKind::Flow);
        assert(term_value(term, ctx, line, items[hi - 1]) == 0);
        lemma_sum_is_within(term, ctx, line, items, lo, hi - 1);
    }
}

/// A saturating sum lies within the limit.
pub proof fn lemma_sum_is_within(
    term: Term,
    ctx: FlexCtx,
    line: Line,
    items: Seq<FlexItem>,
    lo: int,
    hi: int,
)
    ensures
        -LIMIT <= sum_terms(term, ctx, line, items, lo, hi) <= LIMIT,
    decreases hi - lo,
{
    if hi > lo {
        lemma_sum_is_within(term, ctx, line, items, lo, hi - 1);
    }
}

/// The last item of a line completes its sums.
///
/// Let the items be ranked as the solver ranks them, and let the item at
/// `index` be the last flow item of its line. Then the outer target main
/// sizes of the items before it, which the item holds, and its own make up
/// the sum that the line keeps, where that sum does not saturate; and the
/// item holds the number of flow items before it, which with itself is the
/// number of flow items on the line.
pub proof fn lemma_last_item_completes_the_line(
    ctx: FlexCtx,
    items: Seq<FlexItem>,
    lines: Seq<Line>,
    index: int,
)
    requires
        0 <= index < items.len(),
        items[index].kind == ItemKind::Flow,
        items[index].line < lines.len(),
        lines[items[index].line as int].start <= index < lines[items[index].line as int].end
            <= items.len(),
        forall|k: int|
            index < k < lines[items[index].line as int].end ==> (#[trigger] items[k]).kind
                != ItemKind::Flow,
    ensures
        ({
            let line = lines[items[index].line as int];
            let ranked = spec_rank_items(ctx, items, lines)[index];
            let targets = sum_terms(
                Term::OuterTarget,
                ctx,
                line,
                items,
                line.start as int,
                line.end as int,
            );
            let count = sum_terms(Term::Count, ctx, line, items, line.start as int, line.end as int);
            &&& targets == sat_add(ranked.before, outer_target(ctx, items[index]))
            &&& count == sat_add(ranked.rank, 1)
            &&& ranked.target_main == items[index].target_main
            &&& ranked.margin == items[index].margin
        }),
{
    reveal(spec_rank_items);
    let line = lines[items[index].line as int];
    let blank = make_line(0, 0);
    let lo = line.start as int;
    let hi = line.end as int;
    assert(line_of(lines, items[index]) == line);
    lemma_sum_skips_others(Term::OuterTarget, ctx, line, items, lo, index + 1, hi);
    lemma_sum_skips_others(Term::Count, ctx, line, items, lo, index + 1, hi);
    lemma_sum_ignores_line(Term::OuterTarget, ctx, line, blank, items, lo, index);
    lemma_sum_ignores_line(Term::Count, ctx, line, blank, items, lo, index);
}

} // verus!
