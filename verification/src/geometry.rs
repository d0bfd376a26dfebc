//! Two-dimensional geometry: sizes, points and per-edge rectangles.

use vstd::prelude::*;
use crate::fixed::{max, min, sat_add, sat_sub};

verus! {

/// A width and a height.
#[derive(Clone, Copy, Debug, PartialEq, Eq)]
pub struct Size<T> {
    pub width: T,
    pub height: T,
}

/// A position; `x` grows rightwards and `y` downwards.
#[derive(Clone, Copy, Debug, PartialEq, Eq)]
pub struct Point<T> {
    pub x: T,
    pub y: T,
}

/// One value per edge of a box.
#[derive(Clone, Copy, Debug, PartialEq, Eq)]
pub struct Rect<T> {
    pub left: T,
    pub right: T,
    pub top: T,
    pub bottom: T,
}

/// The size `(0, 0)`.
pub open spec fn spec_zero_size() -> Size<i64> {
    Size { width: 0, height: 0 }
}

/// The size `(0, 0)`.
#[verifier::when_used_as_spec(spec_zero_size)]
pub fn zero_size() -> (r: Size<i64>)
    ensures
        r == spec_zero_size(),
{
    Size { width: 0, height: 0 }
}

/// The point `(0, 0)`.
pub open spec fn spec_zero_point() -> Point<i64> {
    Point { x: 0, y: 0 }
}

/// The point `(0, 0)`.
#[verifier::when_used_as_spec(spec_zero_point)]
pub fn zero_point() -> (r: Point<i64>)
    ensures
        r == spec_zero_point(),
{
    Point { x: 0, y: 0 }
}

/// A size with neither dimension known.
pub open spec fn spec_unknown_size() -> Size<Option<i64>> {
    Size { width: None, height: None }
}

/// A size with neither dimension known.
#[verifier::when_used_as_spec(spec_unknown_size)]
pub fn unknown_size() -> (r: Size<Option<i64>>)
    ensures
        r == spec_unknown_size(),
{
    Size { width: None, height: None }
}

/// Both dimensions of `s`, known.
pub open spec fn spec_known(s: Size<i64>) -> Size<Option<i64>> {
    Size { width: Some(s.width), height: Some(s.height) }
}

/// Both dimensions of `s`, known.
#[verifier::when_used_as_spec(spec_known)]
pub fn known(s: Size<i64>) -> (r: Size<Option<i64>>)
    ensures
        r == spec_known(s),
{
    Size { width: Some(s.width), height: Some(s.height) }
}

/// `a` where it is known, else `b`.
pub open spec fn spec_or(a: Option<i64>, b: Option<i64>) -> Option<i64> {
    if a.is_some() {
        a
    } else {
        b
    }
}

/// `a` where it is known, else `b`.
#[verifier::when_used_as_spec(spec_or)]
pub fn or(a: Option<i64>, b: Option<i64>) -> (r: Option<i64>)
    ensures
        r == spec_or(a, b),
{
    if a.is_some() {
        a
    } else {
        b
    }
}

/// `a` where it is known, else `b`, for each dimension.
pub open spec fn spec_size_or(a: Size<Option<i64>>, b: Size<Option<i64>>) -> Size<Option<i64>> {
    Size { width: or(a.width, b.width), height: or(a.height, b.height) }
}

/// `a` where it is known, else `b`, for each dimension.
#[verifier::when_used_as_spec(spec_size_or)]
pub fn size_or(a: Size<Option<i64>>, b: Size<Option<i64>>) -> (r: Size<Option<i64>>)
    ensures
        r == spec_size_or(a, b),
{
    Size { width: or(a.width, b.width), height: or(a.height, b.height) }
}

/// `a` where it is known, else `b`.
pub open spec fn spec_unwrap_or(a: Option<i64>, b: i64) -> i64 {
    match a {
        Some(v) => v,
        None => b,
    }
}

/// `a` where it is known, else `b`.
#[verifier::when_used_as_spec(spec_unwrap_or)]
pub fn unwrap_or(a: Option<i64>, b: i64) -> (r: i64)
    ensures
        r == spec_unwrap_or(a, b),
{
    match a {
        Some(v) => v,
        None => b,
    }
}

/// `x` held between an optional lower and an optional upper bound. Where the
/// bounds cross, the lower one wins.
pub open spec fn spec_clamp(x: i64, lo: Option<i64>, hi: Option<i64>) -> i64 {
    let capped = match hi {
        Some(h) => min(x, h),
        None => x,
    };
    match lo {
        Some(l) => max(capped, l),
        None => capped,
    }
}

/// `x` held between an optional lower and an optional upper bound. Where the
/// bounds cross, the lower one wins.
#[verifier::when_used_as_spec(spec_clamp)]
pub fn clamp(x: i64, lo: Option<i64>, hi: Option<i64>) -> (r: i64)
    ensures
        r == spec_clamp(x, lo, hi),
{
    let capped = match hi {
        Some(h) => min(x, h),
        None => x,
    };
    match lo {
        Some(l) => max(capped, l),
        None => capped,
    }
}

/// `clamp` on a value that may be unknown.
pub open spec fn spec_maybe_clamp(x: Option<i64>, lo: Option<i64>, hi: Option<i64>) -> Option<i64> {
    match x {
        Some(v) => Some(clamp(v, lo, hi)),
        None => None,
    }
}

/// `clamp` on a value that may be unknown.
#[verifier::when_used_as_spec(spec_maybe_clamp)]
pub fn maybe_clamp(x: Option<i64>, lo: Option<i64>, hi: Option<i64>) -> (r: Option<i64>)
    ensures
        r == spec_maybe_clamp(x, lo, hi),
{
    match x {
        Some(v) => Some(clamp(v, lo, hi)),
        None => None,
    }
}

/// `x - d` where `x` is known.
pub open spec fn spec_maybe_sub(x: Option<i64>, d: i64) -> Option<i64> {
    match x {
        Some(v) => Some(sat_sub(v, d)),
        None => None,
    }
}

/// `x - d` where `x` is known.
#[verifier::when_used_as_spec(spec_maybe_sub)]
pub fn maybe_sub(x: Option<i64>, d: i64) -> (r: Option<i64>)
    ensures
        r == spec_maybe_sub(x, d),
{
    match x {
        Some(v) => Some(sat_sub(v, d)),
        None => None,
    }
}

/// The sum of the left and right edges.
pub open spec fn spec_horizontal_sum(r: Rect<i64>) -> i64 {
    sat_add(r.left, r.right)
}

/// The sum of the left and right edges.
#[verifier::when_used_as_spec(spec_horizontal_sum)]
pub fn horizontal_sum(r: Rect<i64>) -> (s: i64)
    ensures
        s == spec_horizontal_sum(r),
{
    sat_add(r.left, r.right)
}

/// The sum of the top and bottom edges.
pub open spec fn spec_vertical_sum(r: Rect<i64>) -> i64 {
    sat_add(r.top, r.bottom)
}

/// The sum of the top and bottom edges.
#[verifier::when_used_as_spec(spec_vertical_sum)]
pub fn vertical_sum(r: Rect<i64>) -> (s: i64)
    ensures
        s == spec_vertical_sum(r),
{
    sat_add(r.top, r.bottom)
}

/// Edge by edge saturating sum of two rectangles.
pub open spec fn spec_rect_add(a: Rect<i64>, b: Rect<i64>) -> Rect<i64> {
    Rect {
        left: sat_add(a.left, b.left),
        right: sat_add(a.right, b.right),
        top: sat_add(a.top, b.top),
        bottom: sat_add(a.bottom, b.bottom),
    }
}

/// Edge by edge saturating sum of two rectangles.
#[verifier::when_used_as_spec(spec_rect_add)]
pub fn rect_add(a: Rect<i64>, b: Rect<i64>) -> (r: Rect<i64>)
    ensures
        r == spec_rect_add(a, b),
{
    Rect {
        left: sat_add(a.left, b.left),
        right: sat_add(a.right, b.right),
        top: sat_add(a.top, b.top),
        bottom: sat_add(a.bottom, b.bottom),
    }
}

} // verus!
