//! The style vocabulary of a node and its resolution against a containing
//! block.

use vstd::prelude::*;
use crate::fixed::{mul_div, ONE};
use crate::geometry::{Rect, Size};

verus! {

/// Whether a node takes part in layout.
#[derive(Clone, Copy, Debug, PartialEq, Eq, Structural)]
pub enum Display {
    /// The node is a flex container.
    Flex,
    /// The node and all its descendants are hidden (`display: none`).
    Hidden,
}

/// Whether a node is placed in the flow of its siblings.
#[derive(Clone, Copy, Debug, PartialEq, Eq, Structural)]
pub enum PositionType {
    /// Placed by the flex algorithm.
    Relative,
    /// Taken out of the flow and placed by its inset.
    Absolute,
}

/// The direction of the main axis.
#[derive(Clone, Copy, Debug, PartialEq, Eq, Structural)]
pub enum FlexDirection {
    Row,
    Column,
    RowReverse,
    ColumnReverse,
}

/// Whether items may wrap onto several lines.
#[derive(Clone, Copy, Debug, PartialEq, Eq, Structural)]
pub enum FlexWrap {
    NoWrap,
    Wrap,
    WrapReverse,
}

/// Alignment of items on the cross axis of their line.
#[derive(Clone, Copy, Debug, PartialEq, Eq, Structural)]
pub enum AlignItems {
    Start,
    End,
    FlexStart,
    FlexEnd,
    Center,
    Baseline,
    Stretch,
}

/// Alignment of one item on the cross axis; overrides the container's
/// `align_items`.
pub type AlignSelf = AlignItems;

/// Distribution of lines along the cross axis.
#[derive(Clone, Copy, Debug, PartialEq, Eq, Structural)]
pub enum AlignContent {
    Start,
    End,
    FlexStart,
    FlexEnd,
    Center,
    Stretch,
    SpaceBetween,
    SpaceEvenly,
    SpaceAround,
}

/// Distribution of items along the main axis.
#[derive(Clone, Copy, Debug, PartialEq, Eq, Structural)]
pub enum JustifyContent {
    Start,
    End,
    FlexStart,
    FlexEnd,
    Center,
    SpaceBetween,
    SpaceEvenly,
    SpaceAround,
}

/// A length that may be left to the algorithm.
#[derive(Clone, Copy, Debug, PartialEq, Eq, Structural)]
pub enum Dimension {
    Auto,
    /// An absolute length.
    Points(i64),
    /// A fraction of the containing block, `ONE` being the whole of it.
    Percent(i64),
}

/// A length that is always given.
#[derive(Clone, Copy, Debug, PartialEq, Eq, Structural)]
pub enum LengthPercentage {
    /// An absolute length.
    Points(i64),
    /// A fraction of the containing block, `ONE` being the whole of it.
    Percent(i64),
}

/// A length that may be `Auto`.
#[derive(Clone, Copy, Debug, PartialEq, Eq, Structural)]
pub enum LengthPercentageAuto {
    /// An absolute length.
    Points(i64),
    /// A fraction of the containing block, `ONE` being the whole of it.
    Percent(i64),
    Auto,
}

/// The space a node is sized under, for one axis.
#[derive(Clone, Copy, Debug, PartialEq, Eq, Structural)]
pub enum AvailableSpace {
    /// A concrete length.
    Definite(i64),
    /// Shrink to the smallest size the content allows.
    MinContent,
    /// Expand to the size the content asks for.
    MaxContent,
}

/// The style of one node.
#[derive(Clone, Copy, Debug, PartialEq, Eq)]
pub struct Style {
    pub display: Display,
    pub position_type: PositionType,
    pub flex_direction: FlexDirection,
    pub flex_wrap: FlexWrap,
    pub align_items: AlignItems,
    pub align_self: Option<AlignSelf>,
    pub align_content: AlignContent,
    pub justify_content: JustifyContent,
    pub inset: Rect<LengthPercentageAuto>,
    pub margin: Rect<LengthPercentageAuto>,
    pub padding: Rect<LengthPercentage>,
    pub border: Rect<LengthPercentage>,
    pub gap: Size<LengthPercentage>,
    pub flex_grow: i64,
    pub flex_shrink: i64,
    pub flex_basis: Dimension,
    pub size: Size<Dimension>,
    pub min_size: Size<Dimension>,
    pub max_size: Size<Dimension>,
    pub aspect_ratio: Option<i64>,
}

/// The style every property of which has its initial value.
pub open spec fn default_style() -> Style {
    Style {
        display: Display::Flex,
        position_type: PositionType::Relative,
        flex_direction: FlexDirection::Row,
        flex_wrap: FlexWrap::NoWrap,
        align_items: AlignItems::Stretch,
        align_self: None,
        align_content: AlignContent::Stretch,
        justify_content: JustifyContent::FlexStart,
        inset: Rect {
            left: LengthPercentageAuto::Auto,
            right: LengthPercentageAuto::Auto,
            top: LengthPercentageAuto::Auto,
            bottom: LengthPercentageAuto::Auto,
        },
        margin: Rect {
            left: LengthPercentageAuto::Points(0),
            right: LengthPercentageAuto::Points(0),
            top: LengthPercentageAuto::Points(0),
            bottom: LengthPercentageAuto::Points(0),
        },
        padding: Rect {
            left: LengthPercentage::Points(0),
            right: LengthPercentage::Points(0),
            top: LengthPercentage::Points(0),
            bottom: LengthPercentage::Points(0),
        },
        border: Rect {
            left: LengthPercentage::Points(0),
            right: LengthPercentage::Points(0),
            top: LengthPercentage::Points(0),
            bottom: LengthPercentage::Points(0),
        },
        gap: Size { width: LengthPercentage::Points(0), height: LengthPercentage::Points(0) },
        flex_grow: 0,
        flex_shrink: ONE,
        flex_basis: Dimension::Auto,
        size: Size { width: Dimension::Auto, height: Dimension::Auto },
        min_size: Size { width: Dimension::Auto, height: Dimension::Auto },
        max_size: Size { width: Dimension::Auto, height: Dimension::Auto },
        aspect_ratio: None,
    }
}

impl Default for Style {
    fn default() -> (s: Style)
        ensures
            s == default_style(),
    {
        Style {
            display: Display::Flex,
            position_type: PositionType::Relative,
            flex_direction: FlexDirection::Row,
            flex_wrap: FlexWrap::NoWrap,
            align_items: AlignItems::Stretch,
            align_self: None,
            align_content: AlignContent::Stretch,
            justify_content: JustifyContent::FlexStart,
            inset: Rect {
                left: LengthPercentageAuto::Auto,
                right: LengthPercentageAuto::Auto,
                top: LengthPercentageAuto::Auto,
                bottom: LengthPercentageAuto::Auto,
            },
            margin: Rect {
                left: LengthPercentageAuto::Points(0),
                right: LengthPercentageAuto::Points(0),
                top: LengthPercentageAuto::Points(0),
                bottom: LengthPercentageAuto::Points(0),
            },
            padding: Rect {
                left: LengthPercentage::Points(0),
                right: LengthPercentage::Points(0),
                top: LengthPercentage::Points(0),
                bottom: LengthPercentage::Points(0),
            },
            border: Rect {
                left: LengthPercentage::Points(0),
                right: LengthPercentage::Points(0),
                top: LengthPercentage::Points(0),
                bottom: LengthPercentage::Points(0),
            },
            gap: Size { width: LengthPercentage::Points(0), height: LengthPercentage::Points(0) },
            flex_grow: 0,
            flex_shrink: ONE,
            flex_basis: Dimension::Auto,
            size: Size { width: Dimension::Auto, height: Dimension::Auto },
            min_size: Size { width: Dimension::Auto, height: Dimension::Auto },
            max_size: Size { width: Dimension::Auto, height: Dimension::Auto },
            aspect_ratio: None,
        }
    }
}

/// The fraction `percent` of `whole`.
pub open spec fn spec_fraction_of(whole: i64, percent: i64) -> i64 {
    mul_div(whole, percent, ONE)
}

/// The fraction `percent` of `whole`.
#[verifier::when_used_as_spec(spec_fraction_of)]
pub fn fraction_of(whole: i64, percent: i64) -> (r: i64)
    ensures
        r == spec_fraction_of(whole, percent),
{
    mul_div(whole, percent, ONE)
}

/// The length a dimension stands for, where it can be told: a percentage
/// needs a known `context`.
pub open spec fn spec_resolve_dimension(d: Dimension, context: Option<i64>) -> Option<i64> {
    match d {
        Dimension::Auto => None,
        Dimension::Points(p) => Some(p),
        Dimension::Percent(f) => match context {
            Some(c) => Some(fraction_of(c, f)),
            None => None,
        },
    }
}

/// The length a dimension stands for, where it can be told: a percentage
/// needs a known `context`.
#[verifier::when_used_as_spec(spec_resolve_dimension)]
pub fn resolve_dimension(d: Dimension, context: Option<i64>) -> (r: Option<i64>)
    ensures
        r == spec_resolve_dimension(d, context),
{
    match d {
        Dimension::Auto => None,
        Dimension::Points(p) => Some(p),
        Dimension::Percent(f) => match context {
            Some(c) => Some(fraction_of(c, f)),
            None => None,
        },
    }
}

/// Both dimensions of a size, each resolved against the same axis of
/// `context`.
pub open spec fn spec_resolve_size(d: Size<Dimension>, context: Size<Option<i64>>) -> Size<Option<i64>> {
    Size {
        width: resolve_dimension(d.width, context.width),
        height: resolve_dimension(d.height, context.height),
    }
}

/// Both dimensions of a size, each resolved against the same axis of
/// `context`.
#[verifier::when_used_as_spec(spec_resolve_size)]
pub fn resolve_size(d: Size<Dimension>, context: Size<Option<i64>>) -> (r: Size<Option<i64>>)
    ensures
        r == spec_resolve_size(d, context),
{
    Size {
        width: resolve_dimension(d.width, context.width),
        height: resolve_dimension(d.height, context.height),
    }
}

/// The length, with a percentage of an unknown `context` counted as `0`.
pub open spec fn spec_resolve_length(l: LengthPercentage, context: Option<i64>) -> i64 {
    match l {
        LengthPercentage::Points(p) => p,
        LengthPercentage::Percent(f) => match context {
            Some(c) => fraction_of(c, f),
            None => 0,
        },
    }
}

/// The length, with a percentage of an unknown `context` counted as `0`.
#[verifier::when_used_as_spec(spec_resolve_length)]
pub fn resolve_length(l: LengthPercentage, context: Option<i64>) -> (r: i64)
    ensures
        r == spec_resolve_length(l, context),
{
    match l {
        LengthPercentage::Points(p) => p,
        LengthPercentage::Percent(f) => match context {
            Some(c) => fraction_of(c, f),
            None => 0,
        },
    }
}

/// The length where it is given and can be told; `None` for `Auto` and for
/// a percentage of an unknown `context`.
pub open spec fn spec_resolve_auto(l: LengthPercentageAuto, context: Option<i64>) -> Option<i64> {
    match l {
        LengthPercentageAuto::Points(p) => Some(p),
        LengthPercentageAuto::Percent(f) => match context {
            Some(c) => Some(fraction_of(c, f)),
            None => None,
        },
        LengthPercentageAuto::Auto => None,
    }
}

/// The length where it is given and can be told; `None` for `Auto` and for
/// a percentage of an unknown `context`.
#[verifier::when_used_as_spec(spec_resolve_auto)]
pub fn resolve_auto(l: LengthPercentageAuto, context: Option<i64>) -> (r: Option<i64>)
    ensures
        r == spec_resolve_auto(l, context),
{
    match l {
        LengthPercentageAuto::Points(p) => Some(p),
        LengthPercentageAuto::Percent(f) => match context {
            Some(c) => Some(fraction_of(c, f)),
            None => None,
        },
        LengthPercentageAuto::Auto => None,
    }
}

/// All four edges resolved against one `context`, unknown lengths as `0`.
pub open spec fn spec_resolve_edges(r: Rect<LengthPercentage>, context: Option<i64>) -> Rect<i64> {
    Rect {
        left: resolve_length(r.left, context),
        right: resolve_length(r.right, context),
        top: resolve_length(r.top, context),
        bottom: resolve_length(r.bottom, context),
    }
}

/// All four edges resolved against one `context`, unknown lengths as `0`.
#[verifier::when_used_as_spec(spec_resolve_edges)]
pub fn resolve_edges(r: Rect<LengthPercentage>, context: Option<i64>) -> (out: Rect<i64>)
    ensures
        out == spec_resolve_edges(r, context),
{
    Rect {
        left: resolve_length(r.left, context),
        right: resolve_length(r.right, context),
        top: resolve_length(r.top, context),
        bottom: resolve_length(r.bottom, context),
    }
}

/// The definite length of an available space, if it has one.
pub open spec fn spec_definite(a: AvailableSpace) -> Option<i64> {
    match a {
        AvailableSpace::Definite(v) => Some(v),
        _ => None,
    }
}

/// The definite length of an available space, if it has one.
#[verifier::when_used_as_spec(spec_definite)]
pub fn definite(a: AvailableSpace) -> (r: Option<i64>)
    ensures
        r == spec_definite(a),
{
    match a {
        AvailableSpace::Definite(v) => Some(v),
        _ => None,
    }
}

/// The definite lengths of both axes, where they have one.
pub open spec fn spec_into_options(a: Size<AvailableSpace>) -> Size<Option<i64>> {
    Size { width: definite(a.width), height: definite(a.height) }
}

/// The definite lengths of both axes, where they have one.
#[verifier::when_used_as_spec(spec_into_options)]
pub fn into_options(a: Size<AvailableSpace>) -> (r: Size<Option<i64>>)
    ensures
        r == spec_into_options(a),
{
    Size { width: definite(a.width), height: definite(a.height) }
}

/// Two available spaces are roughly equal when they are the same content
/// constraint, or definite lengths less than a ten-thousandth of `ONE` apart.
pub open spec fn spec_is_roughly_equal(a: AvailableSpace, b: AvailableSpace) -> bool {
    match (a, b) {
        (AvailableSpace::Definite(x), AvailableSpace::Definite(y)) => {
            (x - y) * 10000 < ONE && (y - x) * 10000 < ONE
        },
        (AvailableSpace::MinContent, AvailableSpace::MinContent) => true,
        (AvailableSpace::MaxContent, AvailableSpace::MaxContent) => true,
        _ => false,
    }
}

/// Two available spaces are roughly equal when they are the same content
/// constraint, or definite lengths less than a ten-thousandth of `ONE` apart.
#[verifier::when_used_as_spec(spec_is_roughly_equal)]
pub fn is_roughly_equal(a: AvailableSpace, b: AvailableSpace) -> (r: bool)
    ensures
        r == spec_is_roughly_equal(a, b),
{
    match (a, b) {
        (AvailableSpace::Definite(x), AvailableSpace::Definite(y)) => {
            let d: i128 = x as i128 - y as i128;
            d * 10000 < ONE as i128 && -d * 10000 < ONE as i128
        },
        (AvailableSpace::MinContent, AvailableSpace::MinContent) => true,
        (AvailableSpace::MaxContent, AvailableSpace::MaxContent) => true,
        _ => false,
    }
}

} // verus!
