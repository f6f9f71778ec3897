//! The overlay window that draws one border: what it remembers and how it is
//! laid out around its target.

use crate::geometry::{
    clamp_length, clamped, rect, CGPoint, CGRect, CGSize, HalfRect, GEOMETRY_EPSILON,
};
use vstd::prelude::*;

verus! {

/// One overlay window drawing a rounded border.
///
/// The `bounds_cg_*` fields are the bounds of the target window, with the origin
/// at the top left and y growing downwards, as everywhere in this crate.
#[derive(Clone, Copy, Debug, PartialEq, Eq, Structural)]
pub struct OverlayWindow {
    /// The window number that the system gave to the overlay.
    pub number: u32,
    pub bounds_cg_x: i64,
    pub bounds_cg_y: i64,
    pub bounds_cg_w: i64,
    pub bounds_cg_h: i64,
    pub border_width: i64,
    pub radius: i64,
}

impl OverlayWindow {
    pub open spec fn target_bounds(self) -> CGRect {
        rect(self.bounds_cg_x, self.bounds_cg_y, self.bounds_cg_w, self.bounds_cg_h)
    }

    /// `number` is the window number of the overlay that the system made around
    /// the given target bounds.
    pub fn new(
        number: u32,
        bounds_cg_x: i64,
        bounds_cg_y: i64,
        bounds_cg_w: i64,
        bounds_cg_h: i64,
        border_width: i64,
        radius: i64,
    ) -> (r: Self)
        ensures
            r.number == number,
            r.target_bounds() == rect(bounds_cg_x, bounds_cg_y, bounds_cg_w, bounds_cg_h),
            r.border_width == border_width,
            r.radius == radius,
    {
        OverlayWindow {
            number,
            bounds_cg_x,
            bounds_cg_y,
            bounds_cg_w,
            bounds_cg_h,
            border_width,
            radius,
        }
    }

    /// The overlay's window number, usable as a window id for tracking.
    pub fn wid(&self) -> (r: u32)
        ensures
            r == self.number,
    {
        self.number
    }

    pub fn set_bounds(&mut self, x: i64, y: i64, w: i64, h: i64)
        ensures
            final(self).target_bounds() == rect(x, y, w, h),
            final(self).number == old(self).number,
            final(self).border_width == old(self).border_width,
            final(self).radius == old(self).radius,
    {
        self.bounds_cg_x = x;
        self.bounds_cg_y = y;
        self.bounds_cg_w = w;
        self.bounds_cg_h = h;
    }
}

/// The frame of an overlay: its target's bounds, and the border around them.
pub open spec fn outer_frame(bounds: CGRect, border_width: int) -> CGRect {
    bounds.inset_by(-border_width, -border_width)
}

pub fn frame_around(bounds: CGRect, border_width: i64) -> (r: CGRect)
    ensures
        r == outer_frame(bounds, border_width as int),
{
    CGRect::new(
        clamp_length(bounds.origin.x as i128 - border_width as i128),
        clamp_length(bounds.origin.y as i128 - border_width as i128),
        clamp_length(bounds.size.width as i128 + 2 * border_width as i128),
        clamp_length(bounds.size.height as i128 + 2 * border_width as i128),
    )
}

/// A frame in coordinates whose origin is at the bottom left of the primary screen,
/// with y growing upwards.
pub open spec fn cocoa_frame(cg: CGRect, primary_height: i64) -> CGRect {
    rect(
        cg.origin.x,
        clamped(primary_height - cg.origin.y - cg.size.height),
        cg.size.width,
        cg.size.height,
    )
}

/// Turns a frame upside down: y from the top of the primary screen to the frame's top
/// becomes y from its bottom to the frame's bottom.
pub fn cg_to_cocoa_frame(cg: CGRect, primary_height: i64) -> (r: CGRect)
    ensures
        r == cocoa_frame(cg, primary_height),
{
    CGRect::new(
        cg.origin.x,
        clamp_length(primary_height as i128 - cg.origin.y as i128 - cg.size.height as i128),
        cg.size.width,
        cg.size.height,
    )
}

/// The larger of a length and 0.
pub open spec fn at_least_zero(v: int) -> int {
    if v > 0 {
        v
    } else {
        0
    }
}

/// The path of a stroke that fills a border as wide as it is: half the border's width
/// inside the frame, which is `border_width` halves of a unit.
pub open spec fn stroke_path(size: CGSize, border_width: i64) -> HalfRect {
    HalfRect {
        x: border_width as i128,
        y: border_width as i128,
        width: (2 * at_least_zero(size.width - border_width)) as i128,
        height: (2 * at_least_zero(size.height - border_width)) as i128,
    }
}

fn room(side: i64, border_width: i64) -> (r: i128)
    ensures
        r == at_least_zero(side - border_width),
        r <= 0xffff_ffff_ffff_ffff,
{
    let left: i128 = side as i128 - border_width as i128;
    if left > 0 {
        left
    } else {
        0
    }
}

/// The stroke is centered on its path. To get a ring of exactly the border's width
/// inside the frame, the path is inset by half of it.
pub fn inset_for_stroke(size: CGSize, border_width: i64) -> (r: HalfRect)
    ensures
        r == stroke_path(size, border_width),
{
    HalfRect {
        x: border_width as i128,
        y: border_width as i128,
        width: 2 * room(size.width, border_width),
        height: 2 * room(size.height, border_width),
    }
}

/// How an overlay is laid out.
#[derive(Clone, Copy, Debug, PartialEq, Eq, Structural)]
pub struct OverlayLayout {
    /// The frame of the overlay window.
    pub frame: CGRect,
    /// The same frame, upside down.
    pub cocoa_frame: CGRect,
    /// The path of the stroke, within the frame.
    pub path: HalfRect,
    /// The layer that the stroke is in, within the frame: all of it.
    pub layer_frame: CGRect,
    pub line_width: i64,
    pub corner_radius: i64,
}

/// How an overlay is laid out around its target.
pub open spec fn layout(
    bounds: CGRect,
    border_width: i64,
    radius: i64,
    primary_height: i64,
) -> OverlayLayout {
    let frame = outer_frame(bounds, border_width as int);
    OverlayLayout {
        frame,
        cocoa_frame: cocoa_frame(frame, primary_height),
        path: stroke_path(frame.size, border_width),
        layer_frame: rect(0, 0, frame.size.width, frame.size.height),
        line_width: border_width,
        corner_radius: radius,
    }
}

/// Lays an overlay out around its target. `primary_height` is the height of the primary
/// screen.
pub fn lay_out(bounds: CGRect, border_width: i64, radius: i64, primary_height: i64) -> (r:
    OverlayLayout)
    ensures
        r == layout(bounds, border_width, radius, primary_height),
{
    let frame = frame_around(bounds, border_width);
    OverlayLayout {
        frame,
        cocoa_frame: cg_to_cocoa_frame(frame, primary_height),
        path: inset_for_stroke(frame.size, border_width),
        layer_frame: CGRect::new(0, 0, frame.size.width, frame.size.height),
        line_width: border_width,
        corner_radius: radius,
    }
}

/// Less than half a point apart.
pub open spec fn near(a: int, b: int) -> bool {
    -GEOMETRY_EPSILON < a - b < GEOMETRY_EPSILON
}

/// Whether the system put a window where it was asked to.
pub fn placed_correctly(actual: CGPoint, wanted: CGPoint) -> (r: bool)
    ensures
        r == (near(actual.x as int, wanted.x as int) && near(actual.y as int, wanted.y as int)),
{
    let dx = actual.x as i128 - wanted.x as i128;
    let dy = actual.y as i128 - wanted.y as i128;
    -32_768 < dx && dx < 32_768 && -32_768 < dy && dy < 32_768
}

/// How a border is drawn into a frame of its own size.
#[derive(Clone, Copy, Debug, PartialEq, Eq, Structural)]
pub struct BorderStroke {
    /// What is cleared first: all of the frame.
    pub full: CGRect,
    pub path: HalfRect,
    /// In halves of a unit.
    pub corner_radius: i128,
    pub line_width: i64,
}

/// The corner radius, or half the path's shorter side if that is less; never below 0
/// on that account. In halves of a unit, for a path that is `width` by `height` units.
pub open spec fn fitting_radius(width: int, height: int, radius: i64) -> int {
    let shorter = if width < height {
        width
    } else {
        height
    };
    let most = at_least_zero(shorter);
    if 2 * radius < most {
        2 * radius
    } else {
        most
    }
}

pub open spec fn border_stroke(width: i64, height: i64, border_width: i64, radius: i64) -> BorderStroke {
    BorderStroke {
        full: rect(0, 0, width, height),
        path: HalfRect {
            x: border_width as i128,
            y: border_width as i128,
            width: (2 * (width - border_width)) as i128,
            height: (2 * (height - border_width)) as i128,
        },
        corner_radius: fitting_radius(width - border_width, height - border_width, radius) as i128,
        line_width: border_width,
    }
}

/// The border ring of a frame.
pub fn draw_border(width: i64, height: i64, border_width: i64, radius: i64) -> (r: BorderStroke)
    ensures
        r == border_stroke(width, height, border_width, radius),
{
    let shorter = if width < height {
        width
    } else {
        height
    };
    let most = room(shorter, border_width);
    BorderStroke {
        full: CGRect::new(0, 0, width, height),
        path: HalfRect {
            x: border_width as i128,
            y: border_width as i128,
            width: 2 * (width as i128 - border_width as i128),
            height: 2 * (height as i128 - border_width as i128),
        },
        corner_radius: if 2 * (radius as i128) < most {
            2 * (radius as i128)
        } else {
            most
        },
        line_width: border_width,
    }
}

/// Turning a frame upside down twice gives it back, as long as the sums are in range.
pub proof fn law_turning_twice_gives_back(cg: CGRect, primary_height: i64)
    requires
        i64::MIN <= primary_height - cg.origin.y - cg.size.height <= i64::MAX,
    ensures
        cocoa_frame(cocoa_frame(cg, primary_height), primary_height) == cg,
{
}

/// The way from the top of the primary screen down to the frame, the frame's height, and
/// the way from the frame's bottom down to the bottom of the screen make up the screen's
/// height, be the frame on that screen or not. Nothing else about the frame changes.
pub proof fn law_turned_frames_fill_the_screen_height(cg: CGRect, primary_height: i64)
    ensures
        ({
            let turned = cocoa_frame(cg, primary_height);
            &&& i64::MIN <= primary_height - cg.origin.y - cg.size.height <= i64::MAX
                ==> cg.origin.y + cg.size.height + turned.origin.y == primary_height
            &&& primary_height - cg.origin.y - cg.size.height > i64::MAX ==> turned.origin.y
                == i64::MAX
            &&& primary_height - cg.origin.y - cg.size.height < i64::MIN ==> turned.origin.y
                == i64::MIN
            &&& turned.origin.x == cg.origin.x
            &&& turned.size == cg.size
        }),
{
}

/// The frame has the border's width more than its target on each of its four sides, as
/// long as the sums are in range.
pub proof fn law_frame_has_room_for_the_border(bounds: CGRect, border_width: i64)
    requires
        i64::MIN <= bounds.origin.x - border_width <= i64::MAX,
        i64::MIN <= bounds.origin.y - border_width <= i64::MAX,
        i64::MIN <= bounds.size.width + 2 * border_width <= i64::MAX,
        i64::MIN <= bounds.size.height + 2 * border_width <= i64::MAX,
    ensures
        ({
            let frame = outer_frame(bounds, border_width as int);
            &&& bounds.origin.x - frame.origin.x == border_width
            &&& bounds.origin.y - frame.origin.y == border_width
            &&& (frame.origin.x + frame.size.width) - (bounds.origin.x + bounds.size.width)
                == border_width
            &&& (frame.origin.y + frame.size.height) - (bounds.origin.y + bounds.size.height)
                == border_width
        }),
{
}

/// An overlay's parts fit together: the upside-down frame is that of the overlay, the
/// stroke is as wide as the border and its layer as large as the frame, and the corners
/// are as round as asked for.
pub proof fn law_layouts_fit_together(
    bounds: CGRect,
    border_width: i64,
    radius: i64,
    primary_height: i64,
)
    requires
        border_width >= 0,
        bounds.size.width >= 0,
        bounds.size.height >= 0,
        i64::MIN <= bounds.origin.x - border_width,
        i64::MIN <= bounds.origin.y - border_width,
        bounds.size.width + 2 * border_width <= i64::MAX,
        bounds.size.height + 2 * border_width <= i64::MAX,
        i64::MIN <= primary_height - bounds.origin.y - bounds.size.height - border_width
            <= i64::MAX,
    ensures
        ({
            let l = layout(bounds, border_width, radius, primary_height);
            &&& l.frame.origin.x == bounds.origin.x - border_width
            &&& l.frame.origin.y == bounds.origin.y - border_width
            &&& l.frame.size.width == bounds.size.width + 2 * border_width
            &&& l.frame.size.height == bounds.size.height + 2 * border_width
            &&& l.cocoa_frame.origin.x == l.frame.origin.x
            &&& l.cocoa_frame.size == l.frame.size
            &&& l.frame.origin.y + l.frame.size.height + l.cocoa_frame.origin.y == primary_height
            &&& l.layer_frame.origin.x == 0 && l.layer_frame.origin.y == 0
            &&& l.layer_frame.size == l.frame.size
            &&& l.path.x == border_width && l.path.y == border_width
            &&& l.path.width == 2 * (bounds.size.width + border_width)
            &&& l.path.height == 2 * (bounds.size.height + border_width)
            &&& l.line_width == border_width
            &&& l.corner_radius == radius
        }),
{
}

/// A window is where it was to be put as long as it is less than half a point off, to
/// either side.
pub proof fn law_near_is_less_than_half_a_point(a: int, b: int)
    ensures
        near(a, b) <==> 2 * (a - b) < crate::geometry::POINT && 2 * (b - a)
            < crate::geometry::POINT,
{
}

/// A stroke's path has the border's half width to each edge of the frame. Its corners
/// are as round as asked for, or else as its shorter side allows: a radius is never more
/// than half of it, nor below 0 if it was not asked to be, and it is the largest such.
pub proof fn law_strokes_fit_the_frame(width: i64, height: i64, border_width: i64, radius: i64)
    ensures
        ({
            let s = border_stroke(width, height, border_width, radius);
            let (w, h) = (width - border_width, height - border_width);
            &&& s.full.origin.x == 0 && s.full.origin.y == 0
            &&& s.full.size.width == width && s.full.size.height == height
            &&& s.line_width == border_width
            &&& s.path.x == border_width && s.path.y == border_width
            &&& s.path.x + s.path.width + border_width == 2 * width
            &&& s.path.y + s.path.height + border_width == 2 * height
            &&& s.corner_radius <= 2 * radius
            &&& w >= 0 && h >= 0 ==> 2 * s.corner_radius <= s.path.width && 2 * s.corner_radius
                <= s.path.height
            &&& w < 0 || h < 0 ==> s.corner_radius <= 0
            &&& radius >= 0 ==> s.corner_radius >= 0
            &&& s.corner_radius < 2 * radius ==> s.corner_radius == w || s.corner_radius == h
                || s.corner_radius == 0 && (w < 0 || h < 0)
        }),
{
}

/// The ring is exactly as wide as asked for, and fills the frame up to the target: the
/// stroke, half its width to either side of its path, reaches from the frame's edge to
/// the target's edge on every side. All of it in halves of a unit.
pub proof fn law_ring_fills_the_frame(bounds: CGRect, border_width: i64)
    requires
        border_width >= 0,
        bounds.size.width >= 0,
        bounds.size.height >= 0,
        bounds.size.width + 2 * border_width <= i64::MAX,
        bounds.size.height + 2 * border_width <= i64::MAX,
    ensures
        ({
            let frame = outer_frame(bounds, border_width as int);
            let path = stroke_path(frame.size, border_width);
            &&& path.x - border_width == 0
            &&& path.y - border_width == 0
            &&& path.x + path.width + border_width == 2 * frame.size.width
            &&& path.y + path.height + border_width == 2 * frame.size.height
            &&& path.x + border_width == 2 * border_width
            &&& path.y + border_width == 2 * border_width
            &&& path.width - 2 * border_width == 2 * bounds.size.width
            &&& path.height - 2 * border_width == 2 * bounds.size.height
        }),
{
}

}
