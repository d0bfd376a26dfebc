use taffy::compute::compute_layout;
use taffy::fixed::ONE;
use taffy::geometry::{Point, Rect, Size};
use taffy::layout::Layout;
use taffy::node::{Node, Taffy};
use taffy::style::{
    AlignContent, AlignItems, AvailableSpace, Dimension, Display, FlexDirection, FlexWrap,
    JustifyContent, LengthPercentage, LengthPercentageAuto, PositionType, Style,
};

fn px(n: i64) -> i64 {
    n * ONE
}

fn points(width: i64, height: i64) -> Size<Dimension> {
    Size { width: Dimension::Points(px(width)), height: Dimension::Points(px(height)) }
}

fn width(w: i64) -> Size<Dimension> {
    Size { width: Dimension::Points(px(w)), height: Dimension::Auto }
}

fn boxed(w: i64, h: i64) -> Style {
    Style { size: points(w, h), ..Default::default() }
}

fn auto() -> LengthPercentageAuto {
    LengthPercentageAuto::Auto
}

fn margin(left: i64, right: i64, top: i64, bottom: i64) -> Rect<LengthPercentageAuto> {
    Rect {
        left: LengthPercentageAuto::Points(px(left)),
        right: LengthPercentageAuto::Points(px(right)),
        top: LengthPercentageAuto::Points(px(top)),
        bottom: LengthPercentageAuto::Points(px(bottom)),
    }
}

fn pass(taffy: &mut Taffy, root: Node) {
    let space = Size { width: AvailableSpace::MaxContent, height: AvailableSpace::MaxContent };
    compute_layout(taffy, root, space).unwrap();
}

fn at(taffy: &Taffy, node: Node) -> (i64, i64, i64, i64) {
    let Layout { size, location, .. } = taffy.layout(node).unwrap();
    (location.x / ONE, location.y / ONE, size.width / ONE, size.height / ONE)
}

fn row_of(taffy: &mut Taffy, container: Style, children: &[Style]) -> (Node, Vec<Node>) {
    let nodes: Vec<Node> = children.iter().map(|s| taffy.new_leaf(*s).unwrap()).collect();
    let root = taffy.new_with_children(container, &nodes).unwrap();
    pass(taffy, root);
    (root, nodes)
}

#[test]
fn items_follow_one_another_on_the_main_axis() {
    let mut taffy = Taffy::new();
    let (root, kids) = row_of(&mut taffy, Style::default(), &[boxed(20, 10), boxed(30, 40), boxed(5, 5)]);
    assert_eq!(at(&taffy, root), (0, 0, 55, 40));
    assert_eq!(at(&taffy, kids[0]), (0, 0, 20, 10));
    assert_eq!(at(&taffy, kids[1]), (20, 0, 30, 40));
    assert_eq!(at(&taffy, kids[2]), (50, 0, 5, 5));
    assert_eq!(taffy.layout(kids[2]).unwrap().order, 2);
}

#[test]
fn a_column_runs_downwards() {
    let mut taffy = Taffy::new();
    let container = Style { flex_direction: FlexDirection::Column, size: points(100, 300), ..Default::default() };
    let item = Style { size: Size { width: Dimension::Auto, height: Dimension::Points(px(50)) }, ..Default::default() };
    let (_, kids) = row_of(&mut taffy, container, &[item, item, item]);
    assert_eq!(at(&taffy, kids[0]), (0, 0, 100, 50));
    assert_eq!(at(&taffy, kids[1]), (0, 50, 100, 50));
    assert_eq!(at(&taffy, kids[2]), (0, 100, 100, 50));
}

#[test]
fn reversed_directions_start_at_the_far_end() {
    let mut taffy = Taffy::new();
    let container = Style { flex_direction: FlexDirection::RowReverse, size: points(100, 10), ..Default::default() };
    let (_, kids) = row_of(&mut taffy, container, &[boxed(20, 10), boxed(30, 10)]);
    assert_eq!(at(&taffy, kids[0]), (80, 0, 20, 10));
    assert_eq!(at(&taffy, kids[1]), (50, 0, 30, 10));

    let mut taffy = Taffy::new();
    let container = Style { flex_direction: FlexDirection::ColumnReverse, size: points(10, 100), ..Default::default() };
    let (_, kids) = row_of(&mut taffy, container, &[boxed(10, 20), boxed(10, 30)]);
    assert_eq!(at(&taffy, kids[0]), (0, 80, 10, 20));
    assert_eq!(at(&taffy, kids[1]), (0, 50, 10, 30));
}

#[test]
fn justify_content_shares_out_free_space() {
    let expect = [
        (JustifyContent::Start, [0, 20]),
        (JustifyContent::FlexStart, [0, 20]),
        (JustifyContent::End, [60, 80]),
        (JustifyContent::FlexEnd, [60, 80]),
        (JustifyContent::Center, [30, 50]),
        (JustifyContent::SpaceBetween, [0, 80]),
        (JustifyContent::SpaceAround, [15, 65]),
        (JustifyContent::SpaceEvenly, [20, 60]),
    ];
    for (justify_content, xs) in expect {
        let mut taffy = Taffy::new();
        let container = Style { justify_content, size: points(100, 10), ..Default::default() };
        let (_, kids) = row_of(&mut taffy, container, &[boxed(20, 10), boxed(20, 10)]);
        assert_eq!(at(&taffy, kids[0]).0, xs[0], "{:?}", justify_content);
        assert_eq!(at(&taffy, kids[1]).0, xs[1], "{:?}", justify_content);
    }
}

#[test]
fn space_between_with_one_item_starts_at_the_start() {
    let mut taffy = Taffy::new();
    let container = Style { justify_content: JustifyContent::SpaceBetween, size: points(100, 10), ..Default::default() };
    let (_, kids) = row_of(&mut taffy, container, &[boxed(20, 10)]);
    assert_eq!(at(&taffy, kids[0]), (0, 0, 20, 10));
}

#[test]
fn align_items_places_items_across_the_line() {
    let expect = [
        (AlignItems::Start, 0, 20),
        (AlignItems::FlexStart, 0, 20),
        (AlignItems::End, 80, 20),
        (AlignItems::FlexEnd, 80, 20),
        (AlignItems::Center, 40, 20),
        (AlignItems::Stretch, 0, 20),
        (AlignItems::Baseline, 0, 20),
    ];
    for (align_items, y, h) in expect {
        let mut taffy = Taffy::new();
        let container = Style { align_items, size: points(100, 100), ..Default::default() };
        let (_, kids) = row_of(&mut taffy, container, &[boxed(20, 20)]);
        assert_eq!(at(&taffy, kids[0]), (0, y, 20, h), "{:?}", align_items);
    }
}

#[test]
fn items_without_cross_size_stretch_to_the_line() {
    let mut taffy = Taffy::new();
    let container = Style { size: points(100, 60), ..Default::default() };
    let stretched = Style { size: width(20), ..Default::default() };
    let bounded = Style {
        size: width(20),
        max_size: Size { width: Dimension::Auto, height: Dimension::Points(px(45)) },
        ..Default::default()
    };
    let centered = Style { size: width(20), align_self: Some(AlignItems::Center), ..Default::default() };
    let (_, kids) = row_of(&mut taffy, container, &[stretched, bounded, centered]);
    assert_eq!(at(&taffy, kids[0]), (0, 0, 20, 60));
    assert_eq!(at(&taffy, kids[1]), (20, 0, 20, 45));
    assert_eq!(at(&taffy, kids[2]), (40, 30, 20, 0));
}

#[test]
fn align_self_overrides_align_items() {
    let mut taffy = Taffy::new();
    let container = Style { align_items: AlignItems::End, size: points(100, 100), ..Default::default() };
    let own = Style { align_self: Some(AlignItems::Start), ..boxed(10, 10) };
    let (_, kids) = row_of(&mut taffy, container, &[boxed(10, 10), own]);
    assert_eq!(at(&taffy, kids[0]), (0, 90, 10, 10));
    assert_eq!(at(&taffy, kids[1]), (10, 0, 10, 10));
}

#[test]
fn baselines_are_the_bottom_edges() {
    let mut taffy = Taffy::new();
    let container = Style { align_items: AlignItems::Baseline, ..Default::default() };
    let lifted = Style { margin: margin(0, 0, 0, 5), ..boxed(10, 10) };
    let (root, kids) = row_of(&mut taffy, container, &[boxed(10, 10), boxed(10, 30), lifted]);
    // The largest ascent is 30 and the largest descent 5.
    assert_eq!(at(&taffy, root), (0, 0, 30, 35));
    assert_eq!(at(&taffy, kids[0]), (0, 20, 10, 10));
    assert_eq!(at(&taffy, kids[1]), (10, 0, 10, 30));
    assert_eq!(at(&taffy, kids[2]), (20, 20, 10, 10));
}

#[test]
fn free_space_grows_items_in_proportion() {
    let mut taffy = Taffy::new();
    let container = Style { size: points(100, 10), ..Default::default() };
    let fixed = boxed(40, 10);
    let one = Style { flex_grow: ONE, ..Default::default() };
    let three = Style { flex_grow: 3 * ONE, ..Default::default() };
    let (_, kids) = row_of(&mut taffy, container, &[fixed, one, three]);
    assert_eq!(at(&taffy, kids[0]), (0, 0, 40, 10));
    assert_eq!(at(&taffy, kids[1]), (40, 0, 15, 10));
    assert_eq!(at(&taffy, kids[2]), (55, 0, 45, 10));
}

#[test]
fn growth_stops_at_the_upper_bound_and_the_rest_is_shared_again() {
    let mut taffy = Taffy::new();
    let container = Style { size: points(100, 10), ..Default::default() };
    let capped = Style {
        flex_grow: ONE,
        max_size: Size { width: Dimension::Points(px(20)), height: Dimension::Auto },
        ..Default::default()
    };
    let free = Style { flex_grow: ONE, ..Default::default() };
    let (_, kids) = row_of(&mut taffy, container, &[capped, free]);
    assert_eq!(at(&taffy, kids[0]), (0, 0, 20, 10));
    assert_eq!(at(&taffy, kids[1]), (20, 0, 80, 10));
}

#[test]
fn missing_space_shrinks_items_by_factor_and_basis() {
    let mut taffy = Taffy::new();
    let container = Style { size: points(100, 10), ..Default::default() };
    let a = Style { flex_basis: Dimension::Points(px(80)), ..Default::default() };
    let b = Style { flex_basis: Dimension::Points(px(60)), ..Default::default() };
    let (_, kids) = row_of(&mut taffy, container, &[a, b]);
    // 40 are missing; the items give way 80 : 60.
    assert_eq!(at(&taffy, kids[0]), (0, 0, 57, 10));
    assert_eq!(at(&taffy, kids[1]), (57, 0, 43, 10));
}

#[test]
fn items_that_do_not_shrink_keep_their_basis() {
    let mut taffy = Taffy::new();
    let container = Style { size: points(100, 10), ..Default::default() };
    let stiff = Style { flex_basis: Dimension::Points(px(80)), flex_shrink: 0, ..Default::default() };
    let soft = Style { flex_basis: Dimension::Points(px(60)), ..Default::default() };
    let (_, kids) = row_of(&mut taffy, container, &[stiff, soft]);
    assert_eq!(at(&taffy, kids[0]), (0, 0, 80, 10));
    assert_eq!(at(&taffy, kids[1]), (80, 0, 20, 10));
}

#[test]
fn items_do_not_shrink_below_their_content() {
    let mut taffy = Taffy::new();
    let text = taffy
        .new_leaf_with_content(
            Style { flex_basis: Dimension::Points(0), ..Default::default() },
            Size { width: px(50), height: px(10) },
        )
        .unwrap();
    let root = taffy.new_with_children(Style { size: width(30), ..Default::default() }, &[text]).unwrap();
    pass(&mut taffy, root);
    assert_eq!(at(&taffy, root), (0, 0, 30, 10));
    assert_eq!(at(&taffy, text), (0, 0, 50, 10));
}

#[test]
fn gaps_separate_items_and_lines() {
    let mut taffy = Taffy::new();
    let container = Style {
        flex_wrap: FlexWrap::Wrap,
        align_content: AlignContent::Start,
        size: width(50),
        gap: Size { width: LengthPercentage::Points(px(10)), height: LengthPercentage::Points(px(4)) },
        ..Default::default()
    };
    let (root, kids) = row_of(&mut taffy, container, &[boxed(20, 10), boxed(20, 10), boxed(20, 10)]);
    assert_eq!(at(&taffy, kids[0]), (0, 0, 20, 10));
    assert_eq!(at(&taffy, kids[1]), (30, 0, 20, 10));
    assert_eq!(at(&taffy, kids[2]), (0, 14, 20, 10));
    assert_eq!(at(&taffy, root), (0, 0, 50, 24));
}

#[test]
fn a_container_without_width_is_as_long_as_its_items_and_gaps() {
    let mut taffy = Taffy::new();
    let container = Style {
        gap: Size { width: LengthPercentage::Points(px(10)), height: LengthPercentage::Points(0) },
        ..Default::default()
    };
    let (root, kids) = row_of(&mut taffy, container, &[boxed(20, 10), boxed(20, 10), boxed(20, 10)]);
    assert_eq!(at(&taffy, root), (0, 0, 80, 10));
    assert_eq!(at(&taffy, kids[2]), (60, 0, 20, 10));
}

#[test]
fn wrapping_starts_a_line_when_the_next_item_does_not_fit() {
    let mut taffy = Taffy::new();
    let container = Style {
        flex_wrap: FlexWrap::Wrap,
        align_content: AlignContent::Start,
        size: points(100, 100),
        ..Default::default()
    };
    let (_, kids) = row_of(&mut taffy, container, &[boxed(50, 10), boxed(50, 20), boxed(1, 5)]);
    assert_eq!(at(&taffy, kids[0]), (0, 0, 50, 10));
    assert_eq!(at(&taffy, kids[1]), (50, 0, 50, 20));
    assert_eq!(at(&taffy, kids[2]), (0, 20, 1, 5));
}

#[test]
fn stretched_lines_share_the_free_cross_space() {
    let mut taffy = Taffy::new();
    let container = Style { flex_wrap: FlexWrap::Wrap, size: points(100, 100), ..Default::default() };
    let (_, kids) = row_of(&mut taffy, container, &[boxed(60, 10), boxed(60, 30)]);
    // 60 are free: each line grows by 30.
    assert_eq!(at(&taffy, kids[0]), (0, 0, 60, 10));
    assert_eq!(at(&taffy, kids[1]), (0, 40, 60, 30));
}

#[test]
fn align_content_places_the_lines() {
    let expect = [
        (AlignContent::Start, [0, 10]),
        (AlignContent::End, [80, 90]),
        (AlignContent::Center, [40, 50]),
        (AlignContent::SpaceBetween, [0, 90]),
        (AlignContent::SpaceAround, [20, 70]),
        (AlignContent::SpaceEvenly, [27, 63]),
    ];
    for (align_content, ys) in expect {
        let mut taffy = Taffy::new();
        let container = Style { flex_wrap: FlexWrap::Wrap, align_content, size: points(100, 100), ..Default::default() };
        let (_, kids) = row_of(&mut taffy, container, &[boxed(60, 10), boxed(60, 10)]);
        assert_eq!(at(&taffy, kids[0]).1, ys[0], "{:?}", align_content);
        assert_eq!(at(&taffy, kids[1]).1, ys[1], "{:?}", align_content);
    }
}

#[test]
fn reversed_wrapping_stacks_lines_from_the_far_side() {
    let mut taffy = Taffy::new();
    let container = Style { flex_wrap: FlexWrap::WrapReverse, size: width(100), ..Default::default() };
    let (root, kids) = row_of(&mut taffy, container, &[boxed(60, 10), boxed(60, 10)]);
    assert_eq!(at(&taffy, root), (0, 0, 100, 20));
    assert_eq!(at(&taffy, kids[0]), (0, 10, 60, 10));
    assert_eq!(at(&taffy, kids[1]), (0, 0, 60, 10));
}

#[test]
fn under_min_content_every_item_has_its_own_line() {
    let mut taffy = Taffy::new();
    let a = taffy.new_leaf(boxed(20, 10)).unwrap();
    let b = taffy.new_leaf(boxed(30, 10)).unwrap();
    let root = taffy.new_with_children(Style { flex_wrap: FlexWrap::Wrap, ..Default::default() }, &[a, b]).unwrap();
    let space = Size { width: AvailableSpace::MinContent, height: AvailableSpace::MaxContent };
    compute_layout(&mut taffy, root, space).unwrap();
    assert_eq!(at(&taffy, root), (0, 0, 30, 20));
    assert_eq!(at(&taffy, a), (0, 0, 20, 10));
    assert_eq!(at(&taffy, b), (0, 10, 30, 10));
}

#[test]
fn auto_margins_take_the_free_space() {
    let mut taffy = Taffy::new();
    let container = Style { size: points(100, 100), ..Default::default() };
    let pushed = Style { margin: Rect { left: auto(), ..margin(0, 0, 0, 0) }, ..boxed(20, 20) };
    let (_, kids) = row_of(&mut taffy, container, &[pushed]);
    assert_eq!(at(&taffy, kids[0]), (80, 0, 20, 20));

    let mut taffy = Taffy::new();
    let centred = Style { margin: Rect { left: auto(), right: auto(), top: auto(), bottom: auto() }, ..boxed(20, 20) };
    let (_, kids) = row_of(&mut taffy, container, &[centred]);
    assert_eq!(at(&taffy, kids[0]), (40, 40, 20, 20));

    let mut taffy = Taffy::new();
    let sunk = Style { margin: Rect { top: auto(), ..margin(0, 0, 0, 0) }, ..boxed(20, 20) };
    let (_, kids) = row_of(&mut taffy, container, &[boxed(10, 10), sunk]);
    assert_eq!(at(&taffy, kids[1]), (10, 80, 20, 20));
}

#[test]
fn margins_keep_items_apart() {
    let mut taffy = Taffy::new();
    let spaced = Style { margin: margin(1, 2, 3, 4), ..boxed(10, 10) };
    let (root, kids) = row_of(&mut taffy, Style::default(), &[spaced, spaced]);
    assert_eq!(at(&taffy, root), (0, 0, 26, 17));
    assert_eq!(at(&taffy, kids[0]), (1, 3, 10, 10));
    assert_eq!(at(&taffy, kids[1]), (14, 3, 10, 10));
}

#[test]
fn padding_and_border_surround_the_content_box() {
    let mut taffy = Taffy::new();
    let edge = |n: i64| Rect {
        left: LengthPercentage::Points(px(n)),
        right: LengthPercentage::Points(px(n)),
        top: LengthPercentage::Points(px(n)),
        bottom: LengthPercentage::Points(px(n)),
    };
    let container = Style { padding: edge(10), border: edge(2), ..Default::default() };
    let (root, kids) = row_of(&mut taffy, container, &[boxed(20, 30)]);
    assert_eq!(at(&taffy, root), (0, 0, 44, 54));
    // Locations are relative to the content box.
    assert_eq!(at(&taffy, kids[0]), (0, 0, 20, 30));

    let mut taffy = Taffy::new();
    let container = Style { padding: edge(10), size: points(100, 100), ..Default::default() };
    let grow = Style { flex_grow: ONE, ..Default::default() };
    let (_, kids) = row_of(&mut taffy, container, &[grow]);
    assert_eq!(at(&taffy, kids[0]), (0, 0, 80, 80));
}

#[test]
fn percentages_of_items_resolve_against_the_content_box() {
    let mut taffy = Taffy::new();
    let container = Style { size: points(200, 100), ..Default::default() };
    let half = Style {
        size: Size { width: Dimension::Percent(ONE / 2), height: Dimension::Percent(ONE / 4) },
        ..Default::default()
    };
    let (_, kids) = row_of(&mut taffy, container, &[half]);
    assert_eq!(at(&taffy, kids[0]), (0, 0, 100, 25));
}

#[test]
fn absolute_children_are_placed_by_their_inset() {
    let inset = |left, right, top, bottom| -> Rect<LengthPercentageAuto> {
        let side = |v: Option<i64>| match v {
            Some(v) => LengthPercentageAuto::Points(px(v)),
            None => LengthPercentageAuto::Auto,
        };
        Rect { left: side(left), right: side(right), top: side(top), bottom: side(bottom) }
    };
    let absolute = |size, inset| Style { position_type: PositionType::Absolute, size, inset, ..Default::default() };
    let container = Style { size: points(100, 100), ..Default::default() };
    let mut taffy = Taffy::new();
    let children = [
        absolute(points(30, 30), inset(Some(10), None, Some(20), None)),
        absolute(points(30, 30), inset(None, Some(10), None, Some(5))),
        absolute(Size { width: Dimension::Auto, height: Dimension::Auto }, inset(Some(10), Some(20), Some(1), Some(2))),
        absolute(points(30, 30), inset(None, None, None, None)),
        boxed(20, 20),
    ];
    let (_, kids) = row_of(&mut taffy, container, &children);
    assert_eq!(at(&taffy, kids[0]), (10, 20, 30, 30));
    assert_eq!(at(&taffy, kids[1]), (60, 65, 30, 30));
    assert_eq!(at(&taffy, kids[2]), (10, 1, 70, 97));
    assert_eq!(at(&taffy, kids[3]), (0, 0, 30, 30));
    // Absolute children take no room in the flow.
    assert_eq!(at(&taffy, kids[4]), (0, 0, 20, 20));
    assert_eq!(taffy.layout(kids[4]).unwrap().order, 4);
}

#[test]
fn absolute_children_are_placed_in_the_padding_box() {
    let mut taffy = Taffy::new();
    let edge = |n: i64| Rect {
        left: LengthPercentage::Points(px(n)),
        right: LengthPercentage::Points(px(n)),
        top: LengthPercentage::Points(px(n)),
        bottom: LengthPercentage::Points(px(n)),
    };
    let container = Style { padding: edge(10), border: edge(5), size: points(100, 100), ..Default::default() };
    let child = Style {
        position_type: PositionType::Absolute,
        size: points(10, 10),
        inset: Rect {
            left: LengthPercentageAuto::Points(0),
            right: auto(),
            top: auto(),
            bottom: LengthPercentageAuto::Points(0),
        },
        ..Default::default()
    };
    let (_, kids) = row_of(&mut taffy, container, &[child]);
    // The padding box is 90 wide and starts 10 before the content box.
    assert_eq!(at(&taffy, kids[0]), (-10, 70, 10, 10));
}

#[test]
fn nested_containers_are_laid_out_in_turn() {
    let mut taffy = Taffy::new();
    let a = taffy.new_leaf(boxed(50, 50)).unwrap();
    let b = taffy.new_leaf(boxed(50, 50)).unwrap();
    let inner = taffy.new_with_children(Style { flex_grow: ONE, ..Default::default() }, &[a, b]).unwrap();
    let side = taffy.new_leaf(boxed(40, 10)).unwrap();
    let root = taffy.new_with_children(Style { size: points(200, 100), ..Default::default() }, &[side, inner]).unwrap();
    pass(&mut taffy, root);
    assert_eq!(at(&taffy, side), (0, 0, 40, 10));
    assert_eq!(at(&taffy, inner), (40, 0, 160, 100));
    assert_eq!(at(&taffy, a), (0, 0, 50, 50));
    assert_eq!(at(&taffy, b), (50, 0, 50, 50));
}

#[test]
fn a_container_is_sized_by_its_content() {
    let mut taffy = Taffy::new();
    let a = taffy.new_leaf(boxed(50, 20)).unwrap();
    let b = taffy.new_leaf(boxed(30, 60)).unwrap();
    let inner = taffy.new_with_children(Style { flex_direction: FlexDirection::Column, ..Default::default() }, &[a, b]).unwrap();
    let root = taffy.new_with_children(Style { align_items: AlignItems::Start, ..Default::default() }, &[inner]).unwrap();
    pass(&mut taffy, root);
    assert_eq!(at(&taffy, root), (0, 0, 50, 80));
    assert_eq!(at(&taffy, inner), (0, 0, 50, 80));
    assert_eq!(at(&taffy, b), (0, 20, 30, 60));
}

#[test]
fn a_container_respects_its_own_bounds() {
    let mut taffy = Taffy::new();
    let container = Style {
        min_size: Size { width: Dimension::Points(px(70)), height: Dimension::Auto },
        max_size: Size { width: Dimension::Auto, height: Dimension::Points(px(8)) },
        ..Default::default()
    };
    let (root, kids) = row_of(&mut taffy, container, &[boxed(20, 10)]);
    assert_eq!(at(&taffy, root), (0, 0, 70, 8));
    assert_eq!(at(&taffy, kids[0]), (0, 0, 20, 10));
}

#[test]
fn definite_space_bounds_percentages_of_the_root() {
    let mut taffy = Taffy::new();
    let root = taffy
        .new_with_children(
            Style {
                size: Size { width: Dimension::Percent(ONE / 2), height: Dimension::Percent(ONE) },
                ..Default::default()
            },
            &[],
        )
        .unwrap();
    let space = Size { width: AvailableSpace::Definite(px(300)), height: AvailableSpace::Definite(px(40)) };
    compute_layout(&mut taffy, root, space).unwrap();
    assert_eq!(at(&taffy, root), (0, 0, 150, 40));
}

#[test]
fn no_size_is_negative_whatever_the_margins() {
    let mut taffy = Taffy::new();
    let pulled = Style { margin: margin(-30, -30, -30, -30), flex_grow: ONE, ..Default::default() };
    let a = taffy.new_leaf(pulled).unwrap();
    let b = taffy.new_leaf(Style { size: points(-5, -5), ..Default::default() }).unwrap();
    let inner = taffy.new_with_children(Style { margin: margin(-100, 0, -100, 0), ..Default::default() }, &[a, b]).unwrap();
    let root = taffy.new_with_children(Style { size: width(10), ..Default::default() }, &[inner]).unwrap();
    pass(&mut taffy, root);
    for index in 0..taffy.node_count() {
        let layout = taffy.layout(Node(index)).unwrap();
        assert!(layout.size.width >= 0 && layout.size.height >= 0, "{:?}", layout);
    }
}

#[test]
fn hidden_children_take_no_room() {
    let mut taffy = Taffy::new();
    let hidden = Style { display: Display::Hidden, ..boxed(50, 50) };
    let (root, kids) = row_of(&mut taffy, Style::default(), &[boxed(10, 10), hidden, boxed(10, 10)]);
    assert_eq!(at(&taffy, root), (0, 0, 20, 10));
    assert_eq!(at(&taffy, kids[1]), (0, 0, 0, 0));
    assert_eq!(taffy.layout(kids[1]).unwrap().order, 1);
    assert_eq!(at(&taffy, kids[2]), (10, 0, 10, 10));
    assert_eq!(taffy.layout(kids[2]).unwrap().location, Point { x: px(10), y: 0 });
}
