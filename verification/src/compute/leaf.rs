//! The sizing of nodes without children.

use vstd::prelude::*;
use crate::compute::Query;
use crate::fixed::{max, mul_div, ONE};
use crate::geometry::{clamp, size_or, unknown_size, unwrap_or, zero_size, Size};
use crate::layout::SizingMode;
use crate::style::{resolve_size, Style};
use crate::tree::{LayoutTree, Structure};

verus! {

/// A size completed by an aspect ratio (width over height) where exactly one
/// of its dimensions is known.
pub open spec fn spec_apply_aspect_ratio(size: Size<Option<i64>>, ratio: Option<i64>) -> Size<
    Option<i64>,
> {
    match (ratio, size.width, size.height) {
        (Some(r), Some(w), None) => Size { width: Some(w), height: Some(mul_div(w, ONE, r)) },
        (Some(r), None, Some(h)) => Size { width: Some(mul_div(h, r, ONE)), height: Some(h) },
        _ => size,
    }
}

/// A size completed by an aspect ratio (width over height) where exactly one
/// of its dimensions is known.
#[verifier::when_used_as_spec(spec_apply_aspect_ratio)]
pub fn apply_aspect_ratio(size: Size<Option<i64>>, ratio: Option<i64>) -> (r: Size<Option<i64>>)
    ensures
        r == spec_apply_aspect_ratio(size, ratio),
{
    match (ratio, size.width, size.height) {
        (Some(r), Some(w), None) => Size { width: Some(w), height: Some(mul_div(w, ONE, r)) },
        (Some(r), None, Some(h)) => Size { width: Some(mul_div(h, r, ONE)), height: Some(h) },
        _ => size,
    }
}

/// The dimensions of a leaf that are decided before it is measured: those
/// the asker knows, else, where the node's own styles apply, those of its
/// `size`; completed by the aspect ratio.
pub open spec fn spec_decided_size(style: Style, q: Query) -> Size<Option<i64>> {
    let styled = match q.sizing_mode {
        SizingMode::ContentSize => q.known_dimensions,
        SizingMode::InherentSize => size_or(
            q.known_dimensions,
            resolve_size(style.size, q.parent_size),
        ),
    };
    apply_aspect_ratio(styled, style.aspect_ratio)
}

/// The dimensions of a leaf that are decided before it is measured.
#[verifier::when_used_as_spec(spec_decided_size)]
pub fn decided_size(style: Style, q: Query) -> (r: Size<Option<i64>>)
    ensures
        r == spec_decided_size(style, q),
{
    let styled = match q.sizing_mode {
        SizingMode::ContentSize => q.known_dimensions,
        SizingMode::InherentSize => size_or(
            q.known_dimensions,
            resolve_size(style.size, q.parent_size),
        ),
    };
    apply_aspect_ratio(styled, style.aspect_ratio)
}

/// The lower bounds on the size of a leaf: its `min_size` where the node's
/// own styles apply, none otherwise.
pub open spec fn spec_lower_bounds(style: Style, q: Query) -> Size<Option<i64>> {
    match q.sizing_mode {
        SizingMode::ContentSize => unknown_size(),
        SizingMode::InherentSize => resolve_size(style.min_size, q.parent_size),
    }
}

/// The lower bounds on the size of a leaf.
#[verifier::when_used_as_spec(spec_lower_bounds)]
pub fn lower_bounds(style: Style, q: Query) -> (r: Size<Option<i64>>)
    ensures
        r == spec_lower_bounds(style, q),
{
    match q.sizing_mode {
        SizingMode::ContentSize => unknown_size(),
        SizingMode::InherentSize => resolve_size(style.min_size, q.parent_size),
    }
}

/// The upper bounds on the size of a leaf: its `max_size` where the node's
/// own styles apply, none otherwise.
pub open spec fn spec_upper_bounds(style: Style, q: Query) -> Size<Option<i64>> {
    match q.sizing_mode {
        SizingMode::ContentSize => unknown_size(),
        SizingMode::InherentSize => resolve_size(style.max_size, q.parent_size),
    }
}

/// The upper bounds on the size of a leaf.
#[verifier::when_used_as_spec(spec_upper_bounds)]
pub fn upper_bounds(style: Style, q: Query) -> (r: Size<Option<i64>>)
    ensures
        r == spec_upper_bounds(style, q),
{
    match q.sizing_mode {
        SizingMode::ContentSize => unknown_size(),
        SizingMode::InherentSize => resolve_size(style.max_size, q.parent_size),
    }
}

/// One dimension of a leaf: the decided length, else the measured one, held
/// between the bounds (the lower bound wins) and never negative.
pub open spec fn spec_leaf_length(decided: Option<i64>, measured: i64, lo: Option<i64>, hi: Option<i64>) -> i64 {
    max(clamp(unwrap_or(decided, measured), lo, hi), 0)
}

/// One dimension of a leaf.
#[verifier::when_used_as_spec(spec_leaf_length)]
pub fn leaf_length(decided: Option<i64>, measured: i64, lo: Option<i64>, hi: Option<i64>) -> (r: i64)
    ensures
        r == spec_leaf_length(decided, measured, lo, hi),
{
    max(clamp(unwrap_or(decided, measured), lo, hi), 0)
}

/// The size of a leaf, given what the host measured it to be (zero where the
/// host does not measure it).
pub open spec fn spec_finish(style: Style, q: Query, measured: Size<i64>) -> Size<i64> {
    let decided = decided_size(style, q);
    let lo = lower_bounds(style, q);
    let hi = upper_bounds(style, q);
    Size {
        width: leaf_length(decided.width, measured.width, lo.width, hi.width),
        height: leaf_length(decided.height, measured.height, lo.height, hi.height),
    }
}

/// The size of a leaf, given what the host measured it to be (zero where the
/// host does not measure it).
#[verifier::when_used_as_spec(spec_finish)]
pub fn finish(style: Style, q: Query, measured: Size<i64>) -> (r: Size<i64>)
    ensures
        r == spec_finish(style, q, measured),
        r.width >= 0,
        r.height >= 0,
{
    let decided = decided_size(style, q);
    let lo = lower_bounds(style, q);
    let hi = upper_bounds(style, q);
    Size {
        width: leaf_length(decided.width, measured.width, lo.width, hi.width),
        height: leaf_length(decided.height, measured.height, lo.height, hi.height),
    }
}

/// What the host measures the leaf to be: the zero size where the host does
/// not measure the node. The host is handed the decided dimensions and the
/// available space.
pub open spec fn measured_size(s: Structure, q: Query) -> Size<i64> {
    if s.measurable.contains(q.node) {
        (s.measure)(q.node, decided_size(s.styles[q.node], q), q.available_space)
    } else {
        zero_size()
    }
}

/// The size of a node without children.
pub open spec fn spec_compute(s: Structure, q: Query) -> Size<i64> {
    finish(s.styles[q.node], q, measured_size(s, q))
}

/// Computes the size of a node without children.
pub fn compute<T: LayoutTree>(tree: &T, q: Query) -> (size: Size<i64>)
    requires
        tree.structure().wf(),
        tree.structure().nodes.contains(q.node),
    ensures
        size == spec_compute(tree.structure(), q),
        size.width >= 0,
        size.height >= 0,
{
    let style = tree.style(q.node);
    let measured = if tree.needs_measure(q.node) {
        tree.measure_node(q.node, decided_size(style, q), q.available_space)
    } else {
        zero_size()
    };
    finish(style, q, measured)
}

} // verus!
