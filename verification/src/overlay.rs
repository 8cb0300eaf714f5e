//! Overlay placement: anchors, margins and the resolved layout of a modal
//! component drawn over the base content.

use vstd::prelude::*;

verus! {

/// Where an overlay is anchored.
#[derive(Debug, Clone, Copy, PartialEq, Eq, Structural)]
pub enum OverlayAnchor {
    Center,
    TopLeft,
    TopRight,
    BottomLeft,
    BottomRight,
    TopCenter,
    BottomCenter,
    LeftCenter,
    RightCenter,
}

impl Default for OverlayAnchor {
    fn default() -> (a: OverlayAnchor)
        ensures
            a == OverlayAnchor::Center,
    {
        OverlayAnchor::Center
    }
}

/// Margins kept free around an overlay.
#[derive(Debug, Clone, Copy, Default)]
pub struct OverlayMargin {
    pub top: u16,
    pub right: u16,
    pub bottom: u16,
    pub left: u16,
}

impl OverlayMargin {
    /// The same margin on all sides.
    pub fn uniform(n: u16) -> (m: OverlayMargin)
        ensures
            m.top == n && m.right == n && m.bottom == n && m.left == n,
    {
        OverlayMargin { top: n, right: n, bottom: n, left: n }
    }
}

/// A resolved overlay layout.
#[derive(Debug, Clone, Copy)]
pub struct OverlayLayout {
    pub width: u16,
    pub row: u16,
    pub col: u16,
    pub max_height: Option<u16>,
}

/// `a - b`, or 0 when `b` is larger.
pub open spec fn sat_sub(a: int, b: int) -> int {
    if a > b {
        a - b
    } else {
        0
    }
}

/// The row an anchor puts an overlay of height `height` at, within
/// `avail_height` rows below `margin_top`: the top, the bottom, or the
/// middle (rounded up).
pub open spec fn anchor_row(anchor: OverlayAnchor, height: int, avail_height: int, margin_top: int) -> int {
    match anchor {
        OverlayAnchor::TopLeft | OverlayAnchor::TopCenter | OverlayAnchor::TopRight => margin_top,
        OverlayAnchor::BottomLeft | OverlayAnchor::BottomCenter | OverlayAnchor::BottomRight => margin_top
            + sat_sub(avail_height, height),
        _ => margin_top + sat_sub(avail_height, height) / 2,
    }
}

/// The column an anchor puts an overlay of width `width` at, within
/// `avail_width` columns right of `margin_left`.
pub open spec fn anchor_col(anchor: OverlayAnchor, width: int, avail_width: int, margin_left: int) -> int {
    match anchor {
        OverlayAnchor::TopLeft | OverlayAnchor::LeftCenter | OverlayAnchor::BottomLeft => margin_left,
        OverlayAnchor::TopRight | OverlayAnchor::RightCenter | OverlayAnchor::BottomRight => margin_left
            + sat_sub(avail_width, width),
        _ => margin_left + sat_sub(avail_width, width) / 2,
    }
}

/// The row an anchor puts an overlay at.
pub fn resolve_anchor_row(anchor: OverlayAnchor, height: u16, avail_height: u16, margin_top: u16) -> (r: u16)
    requires
        margin_top + avail_height <= u16::MAX,
    ensures
        r == anchor_row(anchor, height as int, avail_height as int, margin_top as int),
{
    let free = if avail_height > height {
        avail_height - height
    } else {
        0
    };
    match anchor {
        OverlayAnchor::TopLeft | OverlayAnchor::TopCenter | OverlayAnchor::TopRight => margin_top,
        OverlayAnchor::BottomLeft | OverlayAnchor::BottomCenter | OverlayAnchor::BottomRight => margin_top
            + free,
        _ => margin_top + free / 2,
    }
}

/// The column an anchor puts an overlay at.
pub fn resolve_anchor_col(anchor: OverlayAnchor, width: u16, avail_width: u16, margin_left: u16) -> (r: u16)
    requires
        margin_left + avail_width <= u16::MAX,
    ensures
        r == anchor_col(anchor, width as int, avail_width as int, margin_left as int),
{
    let free = if avail_width > width {
        avail_width - width
    } else {
        0
    };
    match anchor {
        OverlayAnchor::TopLeft | OverlayAnchor::LeftCenter | OverlayAnchor::BottomLeft => margin_left,
        OverlayAnchor::TopRight | OverlayAnchor::RightCenter | OverlayAnchor::BottomRight => margin_left
            + free,
        _ => margin_left + free / 2,
    }
}

} // verus!
