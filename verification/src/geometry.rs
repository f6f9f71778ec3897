//! Points, sizes and rectangles in the window server's global coordinates.
//!
//! Coordinates and lengths are fixed-point numbers: [`POINT`] units make one
//! point. Sums that leave the range of the units stop at its ends.

use vstd::prelude::*;

verus! {

/// Units in one point.
pub const POINT: i64 = 65_536;

/// No window with a side shorter than this gets a border: four points.
pub const MIN_TRACKED_WINDOW_SIZE: i64 = 262_144;

/// Two coordinates no further apart than this count as equal: half a point.
pub const GEOMETRY_EPSILON: i64 = 32_768;

#[derive(Clone, Copy, Debug, PartialEq, Eq, Structural)]
pub struct CGPoint {
    pub x: i64,
    pub y: i64,
}

#[derive(Clone, Copy, Debug, PartialEq, Eq, Structural)]
pub struct CGSize {
    pub width: i64,
    pub height: i64,
}

#[derive(Clone, Copy, Debug, PartialEq, Eq, Structural)]
pub struct CGRect {
    pub origin: CGPoint,
    pub size: CGSize,
}

/// A point in halves of a unit, so that the middle of any two units is one.
#[derive(Clone, Copy, Debug, PartialEq, Eq, Structural)]
pub struct HalfPoint {
    pub x: i128,
    pub y: i128,
}

/// A rectangle in halves of a unit.
#[derive(Clone, Copy, Debug, PartialEq, Eq, Structural)]
pub struct HalfRect {
    pub x: i128,
    pub y: i128,
    pub width: i128,
    pub height: i128,
}

/// The nearest value that the units can hold.
pub open spec fn clamped(v: int) -> i64 {
    if v > i64::MAX {
        i64::MAX
    } else if v < i64::MIN {
        i64::MIN
    } else {
        v as i64
    }
}

/// The nearest value that the units can hold.
pub fn clamp_length(v: i128) -> (r: i64)
    ensures
        r == clamped(v as int),
{
    if v > i64::MAX as i128 {
        i64::MAX
    } else if v < i64::MIN as i128 {
        i64::MIN
    } else {
        v as i64
    }
}

pub open spec fn rect(x: i64, y: i64, w: i64, h: i64) -> CGRect {
    CGRect { origin: CGPoint { x, y }, size: CGSize { width: w, height: h } }
}

impl CGRect {
    /// A rectangle moved inwards by `dx` at its left and right side and by `dy`
    /// at its top and bottom.
    pub open spec fn inset_by(self, dx: int, dy: int) -> CGRect {
        rect(
            clamped(self.origin.x + dx),
            clamped(self.origin.y + dy),
            clamped(self.size.width - 2 * dx),
            clamped(self.size.height - 2 * dy),
        )
    }

    pub fn new(x: i64, y: i64, w: i64, h: i64) -> (r: Self)
        ensures
            r == rect(x, y, w, h),
    {
        CGRect { origin: CGPoint { x, y }, size: CGSize { width: w, height: h } }
    }

    pub fn inset(&self, dx: i64, dy: i64) -> (r: Self)
        ensures
            r == self.inset_by(dx as int, dy as int),
    {
        CGRect::new(
            clamp_length(self.origin.x as i128 + dx as i128),
            clamp_length(self.origin.y as i128 + dy as i128),
            clamp_length(self.size.width as i128 - 2 * dx as i128),
            clamp_length(self.size.height as i128 - 2 * dy as i128),
        )
    }
}

impl Default for CGRect {
    fn default() -> (r: Self)
        ensures
            r == rect(0, 0, 0, 0),
    {
        CGRect::new(0, 0, 0, 0)
    }
}

/// Sums that fit stay what they are; the others stop at the end that they pass. Nothing
/// that the units can hold is nearer.
pub proof fn law_sums_stop_at_the_ends(v: int, w: i64)
    ensures
        i64::MIN <= v <= i64::MAX ==> clamped(v) == v,
        v > i64::MAX ==> clamped(v) == i64::MAX,
        v < i64::MIN ==> clamped(v) == i64::MIN,
        clamped(v) <= v ==> v - clamped(v) <= (if w <= v { v - w } else { w - v }),
        clamped(v) > v ==> clamped(v) - v <= (if w <= v { v - w } else { w - v }),
{
}

/// Moving the sides inwards and back outwards gives the rectangle back, as long as the
/// sums are in range; the middle stays where it is.
pub proof fn law_insets_can_be_undone(r: CGRect, dx: int, dy: int)
    requires
        i64::MIN <= r.origin.x + dx <= i64::MAX,
        i64::MIN <= r.origin.y + dy <= i64::MAX,
        i64::MIN <= r.size.width - 2 * dx <= i64::MAX,
        i64::MIN <= r.size.height - 2 * dy <= i64::MAX,
    ensures
        r.inset_by(dx, dy).inset_by(-dx, -dy) == r,
        r.inset_by(dx, dy).origin.x - r.origin.x == dx,
        r.inset_by(dx, dy).origin.y - r.origin.y == dy,
        2 * r.inset_by(dx, dy).origin.x + r.inset_by(dx, dy).size.width == 2 * r.origin.x
            + r.size.width,
        2 * r.inset_by(dx, dy).origin.y + r.inset_by(dx, dy).size.height == 2 * r.origin.y
            + r.size.height,
{
}

}
