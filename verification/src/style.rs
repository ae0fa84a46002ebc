//! How the circles of a scatter plot are drawn.

use vstd::prelude::*;

verus! {

/// Radius of a point's marker, in pixels.
pub const MARKER_RADIUS: u32 = 3;

/// Radius of a legend swatch, in pixels.
pub const SWATCH_RADIUS: u32 = 5;

/// How a circle is drawn: its radius in pixels, and whether it is filled.
#[derive(Clone, Copy, Debug, PartialEq, Eq)]
pub struct CircleStyle {
    pub radius: u32,
    pub filled: bool,
}

/// The style of a point's marker: an unfilled circle.
pub open spec fn marker_style() -> CircleStyle {
    CircleStyle { radius: MARKER_RADIUS, filled: false }
}

/// The style of a legend swatch: a filled circle.
pub open spec fn swatch_style() -> CircleStyle {
    CircleStyle { radius: SWATCH_RADIUS, filled: true }
}

} // verus!
