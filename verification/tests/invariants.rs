use taffy::compute::compute_layout;
use taffy::fixed::{round, ONE};
use taffy::geometry::{Rect, Size};
use taffy::node::{Node, Taffy};
use taffy::style::{
    AvailableSpace, Dimension, Display, FlexDirection, FlexWrap, JustifyContent,
    LengthPercentage, LengthPercentageAuto, PositionType, Style,
};

fn px(n: i64) -> i64 {
    n * ONE
}

fn points(width: i64, height: i64) -> Size<Dimension> {
    Size { width: Dimension::Points(px(width)), height: Dimension::Points(px(height)) }
}

fn at_least(width: i64, height: i64) -> Size<Dimension> {
    points(width, height)
}

fn definite(width: i64, height: i64) -> Size<AvailableSpace> {
    Size { width: AvailableSpace::Definite(px(width)), height: AvailableSpace::Definite(px(height)) }
}

/// A tree with bounds, hidden parts, absolute children and wrapping, and
/// the nodes of it that are shown.
fn sample(taffy: &mut Taffy) -> (Node, Vec<(Node, Size<i64>)>, Vec<Node>) {
    let bounded = |w: i64, h: i64| Style { min_size: at_least(w, h), ..Default::default() };
    let leaf_a = taffy.new_leaf(Style { flex_grow: ONE, ..bounded(30, 5) }).unwrap();
    let leaf_b = taffy
        .new_leaf_with_content(Style { flex_shrink: 4 * ONE, ..bounded(10, 40) }, Size { width: px(90), height: px(7) })
        .unwrap();
    let leaf_c = taffy
        .new_leaf(Style {
            position_type: PositionType::Absolute,
            size: points(3, 3),
            ..bounded(12, 12)
        })
        .unwrap();
    let column = taffy
        .new_with_children(
            Style { flex_direction: FlexDirection::Column, flex_shrink: ONE, ..bounded(20, 70) },
            &[leaf_a, leaf_b, leaf_c],
        )
        .unwrap();
    let deep = taffy.new_leaf(bounded(500, 500)).unwrap();
    let veiled = taffy
        .new_with_children(Style { size: points(40, 40), ..bounded(41, 41) }, &[deep])
        .unwrap();
    let hidden = taffy
        .new_with_children(
            Style { display: Display::Hidden, ..bounded(60, 60) },
            &[veiled],
        )
        .unwrap();
    let wide = taffy
        .new_leaf(Style { size: points(80, 10), flex_shrink: 2 * ONE, ..bounded(75, 2) })
        .unwrap();
    let root = taffy
        .new_with_children(
            Style {
                flex_wrap: FlexWrap::Wrap,
                justify_content: JustifyContent::SpaceAround,
                size: points(100, 60),
                ..bounded(90, 90)
            },
            &[column, hidden, wide],
        )
        .unwrap();
    let shown = vec![
        (root, Size { width: px(90), height: px(90) }),
        (column, Size { width: px(20), height: px(70) }),
        (leaf_a, Size { width: px(30), height: px(5) }),
        (leaf_b, Size { width: px(10), height: px(40) }),
        (leaf_c, Size { width: px(12), height: px(12) }),
        (wide, Size { width: px(75), height: px(2) }),
    ];
    (root, shown, vec![veiled, deep])
}

#[test]
fn shown_nodes_are_not_smaller_than_their_lower_bounds() {
    for space in [definite(50, 50), definite(1000, 1000), definite(0, 0)] {
        let mut taffy = Taffy::new();
        let (root, shown, _) = sample(&mut taffy);
        compute_layout(&mut taffy, root, space).unwrap();
        for (node, least) in &shown {
            let size = taffy.layout(*node).unwrap().size;
            assert!(size.width >= least.width, "{:?} is {:?}", node, size);
            assert!(size.height >= least.height, "{:?} is {:?}", node, size);
        }
    }
}

#[test]
fn nodes_below_a_hidden_node_are_zeroed_whatever_their_bounds() {
    let mut taffy = Taffy::new();
    let (root, _, veiled) = sample(&mut taffy);
    compute_layout(&mut taffy, root, definite(50, 50)).unwrap();
    for node in veiled {
        let layout = taffy.layout(node).unwrap();
        assert_eq!(layout.size, Size { width: 0, height: 0 });
        assert_eq!((layout.location.x, layout.location.y), (0, 0));
    }
}

#[test]
fn no_size_is_negative_and_every_layout_is_whole() {
    let mut taffy = Taffy::new();
    let (root, _, _) = sample(&mut taffy);
    let space = Size { width: AvailableSpace::Definite(px(33) + 77), height: AvailableSpace::MinContent };
    compute_layout(&mut taffy, root, space).unwrap();
    for index in 0..taffy.node_count() {
        let layout = taffy.layout(Node(index)).unwrap();
        assert!(layout.size.width >= 0 && layout.size.height >= 0);
        for value in [layout.size.width, layout.size.height, layout.location.x, layout.location.y] {
            assert_eq!(value % ONE, 0);
        }
    }
}

#[test]
fn a_second_pass_changes_nothing() {
    let mut taffy = Taffy::new();
    let (root, _, _) = sample(&mut taffy);
    compute_layout(&mut taffy, root, definite(50, 50)).unwrap();
    let first: Vec<_> = (0..taffy.node_count()).map(|i| taffy.layout(Node(i)).unwrap()).collect();
    compute_layout(&mut taffy, root, definite(50, 50)).unwrap();
    let second: Vec<_> = (0..taffy.node_count()).map(|i| taffy.layout(Node(i)).unwrap()).collect();
    assert_eq!(first, second);
}

#[test]
fn items_and_spacing_fill_the_line() {
    for (justify_content, behind) in [
        (JustifyContent::Start, 24),
        (JustifyContent::End, 0),
        (JustifyContent::Center, 12),
        (JustifyContent::SpaceBetween, 0),
        (JustifyContent::SpaceAround, 4),
        (JustifyContent::SpaceEvenly, 6),
    ] {
        let mut taffy = Taffy::new();
        let margin = Rect {
            left: LengthPercentageAuto::Points(px(2)),
            right: LengthPercentageAuto::Points(px(3)),
            top: LengthPercentageAuto::Points(0),
            bottom: LengthPercentageAuto::Points(0),
        };
        let item = |w: i64| Style { size: points(w, 10), margin, flex_shrink: 0, ..Default::default() };
        let kids =
            [taffy.new_leaf(item(10)).unwrap(), taffy.new_leaf(item(20)).unwrap(), taffy.new_leaf(item(12)).unwrap()];
        let root = taffy
            .new_with_children(
                Style {
                    justify_content,
                    size: points(93, 10),
                    gap: Size { width: LengthPercentage::Points(px(6)), height: LengthPercentage::Points(0) },
                    ..Default::default()
                },
                &kids,
            )
            .unwrap();
        compute_layout(&mut taffy, root, definite(93, 10)).unwrap();
        // The outer sizes take 57, the gaps 12: 24 are free.
        let last = taffy.layout(kids[2]).unwrap();
        let end = last.location.x + last.size.width + px(3);
        assert_eq!(end + px(behind), px(93), "{:?}", justify_content);
        // Each item starts behind the one before it.
        for pair in kids.windows(2) {
            let (a, b) = (taffy.layout(pair[0]).unwrap(), taffy.layout(pair[1]).unwrap());
            assert!(b.location.x - px(2) >= a.location.x + a.size.width + px(3) + px(6));
        }
    }
}

#[test]
fn siblings_that_touch_stay_touching_at_every_depth() {
    let mut taffy = Taffy::new();
    let grow = Style { flex_grow: ONE, ..Default::default() };
    let mut thirds = Vec::new();
    for _ in 0..3 {
        thirds.push(taffy.new_leaf(grow).unwrap());
    }
    let inner = taffy.new_with_children(grow, &thirds).unwrap();
    let side = taffy
        .new_leaf(Style {
            size: Size { width: Dimension::Points(px(10) + ONE / 3), height: Dimension::Auto },
            ..Default::default()
        })
        .unwrap();
    let root = taffy
        .new_with_children(Style { size: points(100, 10), ..Default::default() }, &[side, inner])
        .unwrap();
    compute_layout(&mut taffy, root, definite(100, 10)).unwrap();
    // The inner container starts at a third of a pixel past ten; its
    // children are rounded in the coordinates of the root.
    let inner_x = taffy.layout(inner).unwrap().location.x;
    assert_eq!(inner_x, px(10));
    let lay = |n: Node| taffy.layout(n).unwrap();
    assert_eq!(lay(side).location.x + lay(side).size.width, lay(inner).location.x);
    assert_eq!(lay(inner).location.x + lay(inner).size.width, px(100));
    let widths: Vec<i64> = thirds.iter().map(|n| lay(*n).size.width / ONE).collect();
    assert_eq!(widths.iter().sum::<i64>(), 90);
    assert_eq!(widths, vec![30, 30, 30]);
    // In the coordinates of the root, the far edge of each third is the near
    // edge of the next.
    let third = (px(100) - px(10) - ONE / 3) / 3;
    let origin = px(10) + ONE / 3;
    let mut edge = round(origin);
    for (index, node) in thirds.iter().enumerate() {
        assert_eq!(edge, round(origin + third * index as i64));
        edge += lay(*node).size.width;
    }
    assert_eq!(edge, px(100));
}
