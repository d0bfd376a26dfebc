use taffy::compute::compute_layout;
use taffy::error::TaffyError;
use taffy::geometry::{Point, Size};
use taffy::layout::{with_order, Layout};
use taffy::node::{Node, Taffy};
use taffy::style::{AvailableSpace, Style};
use taffy::tree::LayoutTree;

#[test]
fn nodes_are_numbered_as_they_are_made() {
    let mut taffy = Taffy::new();
    assert_eq!(taffy.node_count(), 0);
    let a = taffy.new_leaf(Style::default()).unwrap();
    let b = taffy.new_leaf_with_content(Style::default(), Size { width: 1, height: 2 }).unwrap();
    let c = taffy.new_with_children(Style::default(), &[b, a]).unwrap();
    assert_eq!((a, b, c), (Node(0), Node(1), Node(2)));
    assert_eq!(taffy.node_count(), 3);
    assert!(taffy.contains(c));
    assert!(!taffy.contains(Node(3)));
    assert_eq!(taffy.child_count(c), 2);
    assert_eq!(taffy.child(c, 0), b);
    assert_eq!(taffy.child(c, 1), a);
    assert!(taffy.is_childless(a));
    assert!(!taffy.is_childless(c));
    assert!(taffy.needs_measure(b));
    assert!(!taffy.needs_measure(a));
}

#[test]
fn new_nodes_have_the_zero_layout_and_an_empty_cache() {
    let mut taffy = Taffy::new();
    let a = taffy.new_leaf(Style::default()).unwrap();
    assert_eq!(taffy.layout(a), Ok(with_order(0)));
    assert_eq!(with_order(3), Layout { order: 3, size: Size { width: 0, height: 0 }, location: Point { x: 0, y: 0 } });
    for slot in 0..5 {
        assert_eq!(taffy.cache(a, slot), None);
    }
}

#[test]
fn children_must_be_nodes_of_the_tree() {
    let mut taffy = Taffy::new();
    let a = taffy.new_leaf(Style::default()).unwrap();
    let result = taffy.new_with_children(Style::default(), &[a, Node(5), Node(9)]);
    assert_eq!(result, Err(TaffyError::InvalidInputNode(Node(5))));
    assert_eq!(taffy.node_count(), 1);
    // A node cannot be its own child: it does not exist yet.
    let result = taffy.new_with_children(Style::default(), &[Node(1)]);
    assert_eq!(result, Err(TaffyError::InvalidInputNode(Node(1))));
}

#[test]
fn unknown_nodes_have_no_layout() {
    let taffy = Taffy::new();
    assert_eq!(taffy.layout(Node(0)), Err(TaffyError::InvalidInputNode(Node(0))));
}

#[test]
fn a_pass_from_an_unknown_root_changes_nothing() {
    let mut taffy = Taffy::new();
    let a = taffy.new_leaf(Style::default()).unwrap();
    taffy.set_layout(a, Layout { order: 7, size: Size { width: 3, height: 4 }, location: Point { x: 1, y: 2 } });
    let space = Size { width: AvailableSpace::MaxContent, height: AvailableSpace::MaxContent };
    assert_eq!(compute_layout(&mut taffy, Node(1), space), Err(TaffyError::InvalidInputNode(Node(1))));
    assert_eq!(taffy.compute_layout(Node(1), space), Err(TaffyError::InvalidInputNode(Node(1))));
    assert_eq!(
        taffy.layout(a),
        Ok(Layout { order: 7, size: Size { width: 3, height: 4 }, location: Point { x: 1, y: 2 } })
    );
}

#[test]
fn the_root_lies_at_the_origin_with_order_zero() {
    let mut taffy = Taffy::new();
    let a = taffy.new_leaf(Style::default()).unwrap();
    taffy.set_layout(a, Layout { order: 7, size: Size { width: 3, height: 4 }, location: Point { x: 1, y: 2 } });
    let space = Size { width: AvailableSpace::MaxContent, height: AvailableSpace::MaxContent };
    assert_eq!(taffy.compute_layout(a, space), Ok(()));
    assert_eq!(taffy.layout(a), Ok(with_order(0)));
}

#[test]
fn a_node_has_one_place_in_the_tree() {
    let mut taffy = Taffy::new();
    let a = taffy.new_leaf(Style::default()).unwrap();
    let b = taffy.new_leaf(Style::default()).unwrap();
    assert!(!taffy.is_placed(a));
    // The same node cannot stand in a list twice.
    assert_eq!(taffy.new_with_children(Style::default(), &[a, b, a]), Err(TaffyError::InvalidInputNode(a)));
    assert_eq!(taffy.node_count(), 2);
    let parent = taffy.new_with_children(Style::default(), &[a]).unwrap();
    assert!(taffy.is_placed(a));
    assert!(!taffy.is_placed(b));
    assert!(!taffy.is_placed(parent));
    // A child of one node cannot become the child of another.
    assert_eq!(taffy.new_with_children(Style::default(), &[b, a]), Err(TaffyError::InvalidInputNode(a)));
    assert_eq!(taffy.node_count(), 3);
    assert_eq!(taffy.new_with_children(Style::default(), &[b, parent]), Ok(Node(3)));
    assert_eq!(taffy.child_count(Node(3)), 2);
}
