use taffy::compute::{compute_layout, round_layout, rounded, rounded_extent};
use taffy::fixed::{HALF, ONE};
use taffy::geometry::{Point, Size};
use taffy::layout::Layout;
use taffy::node::Taffy;
use taffy::style::{AvailableSpace, Dimension, Style};
use taffy::tree::LayoutTree;

fn px(n: i64) -> i64 {
    n * ONE
}

fn layout(x: i64, y: i64, width: i64, height: i64) -> Layout {
    Layout { order: 0, size: Size { width, height }, location: Point { x, y } }
}

#[test]
fn extent_is_the_distance_between_rounded_edges() {
    // From 0.4 to 1.0: both edges round apart.
    assert_eq!(rounded_extent(ONE * 4 / 10, ONE * 6 / 10), px(1));
    // From 0.6 to 1.2: both edges round to 1.
    assert_eq!(rounded_extent(ONE * 6 / 10, ONE * 6 / 10), 0);
    // From 0.5 to 1.5: halves go away from zero.
    assert_eq!(rounded_extent(HALF, ONE), px(1));
    assert_eq!(rounded_extent(-HALF, ONE), px(2));
    assert_eq!(rounded_extent(px(3), px(4)), px(4));
}

#[test]
fn location_is_rounded_relative_to_the_parent() {
    let before = layout(ONE * 3 / 10, ONE * 7 / 10, px(10), px(10));
    let abs = Point { x: px(5) + ONE * 3 / 10, y: px(5) + ONE * 7 / 10 };
    let after = rounded(before, abs);
    assert_eq!(after.location, Point { x: 0, y: px(1) });
    assert_eq!(after.size, Size { width: px(10), height: px(10) });
    assert_eq!(after.order, 0);
}

#[test]
fn thirds_tile_after_rounding() {
    let mut taffy = Taffy::new();
    let grow = Style { flex_grow: ONE, ..Default::default() };
    let a = taffy.new_leaf(grow).unwrap();
    let b = taffy.new_leaf(grow).unwrap();
    let c = taffy.new_leaf(grow).unwrap();
    let root = taffy
        .new_with_children(
            Style {
                size: Size { width: Dimension::Points(px(100)), height: Dimension::Points(px(10)) },
                ..Default::default()
            },
            &[a, b, c],
        )
        .unwrap();
    let space = Size { width: AvailableSpace::MaxContent, height: AvailableSpace::MaxContent };
    compute_layout(&mut taffy, root, space).unwrap();
    let at = |n| taffy.layout(n).unwrap();
    assert_eq!(at(a).location.x, 0);
    assert_eq!(at(a).size.width, px(33));
    assert_eq!(at(b).location.x, px(33));
    assert_eq!(at(b).size.width, px(34));
    assert_eq!(at(c).location.x, px(67));
    assert_eq!(at(c).size.width, px(33));
    // No seam and no overlap between neighbours.
    assert_eq!(at(a).location.x + at(a).size.width, at(b).location.x);
    assert_eq!(at(b).location.x + at(b).size.width, at(c).location.x);
    assert_eq!(at(c).location.x + at(c).size.width, px(100));
}

#[test]
fn rounding_walks_the_tree_with_unrounded_positions() {
    let mut taffy = Taffy::new();
    let leaf = taffy.new_leaf(Style::default()).unwrap();
    let inner = taffy.new_with_children(Style::default(), &[leaf]).unwrap();
    let root = taffy.new_with_children(Style::default(), &[inner]).unwrap();
    taffy.set_layout(root, layout(0, 0, px(10), px(10)));
    taffy.set_layout(inner, layout(ONE * 3 / 10, 0, px(5), px(5)));
    taffy.set_layout(leaf, layout(ONE * 3 / 10, 0, ONE * 3 / 10, px(1)));
    round_layout(&mut taffy, root, 0, 0);
    // The leaf spans 0.6 to 0.9 in the coordinates of the root: both edges
    // round to 1, though the leaf is 0.3 wide and lies at 0.3 in its parent.
    let at = |n| taffy.layout(n).unwrap();
    assert_eq!(at(inner).location.x, 0);
    assert_eq!(at(inner).size.width, px(5));
    assert_eq!(at(leaf).location.x, 0);
    assert_eq!(at(leaf).size.width, 0);
    assert_eq!(at(leaf).size.height, px(1));
}

#[test]
fn rounding_a_rounded_tree_changes_nothing() {
    let mut taffy = Taffy::new();
    let leaf = taffy.new_leaf(Style::default()).unwrap();
    let root = taffy.new_with_children(Style::default(), &[leaf]).unwrap();
    taffy.set_layout(root, layout(0, 0, px(10) + 7, px(10) - 7));
    taffy.set_layout(leaf, layout(ONE * 3 / 10, HALF, ONE * 9 / 10, px(3) + HALF));
    round_layout(&mut taffy, root, 0, 0);
    let first = (taffy.layout(root).unwrap(), taffy.layout(leaf).unwrap());
    round_layout(&mut taffy, root, 0, 0);
    let second = (taffy.layout(root).unwrap(), taffy.layout(leaf).unwrap());
    assert_eq!(first, second);
    assert_eq!(first.1.location, Point { x: 0, y: px(1) });
    assert_eq!(first.1.size, Size { width: px(1), height: px(3) });
}
