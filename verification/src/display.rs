//! How many pixels a point has on the display that a window is on.

use crate::geometry::{CGRect, HalfPoint};
use vstd::prelude::*;

verus! {

/// The middle of a rectangle: half of each side away from its origin.
pub open spec fn center(bounds: CGRect) -> HalfPoint {
    HalfPoint {
        x: (2 * bounds.origin.x + bounds.size.width) as i128,
        y: (2 * bounds.origin.y + bounds.size.height) as i128,
    }
}

/// The point whose display counts as that of a window, in halves of a unit.
pub fn display_point(bounds: CGRect) -> (r: HalfPoint)
    ensures
        r == center(bounds),
{
    HalfPoint {
        x: 2 * bounds.origin.x as i128 + bounds.size.width as i128,
        y: 2 * bounds.origin.y as i128 + bounds.size.height as i128,
    }
}

/// The size of a display, in points and in pixels.
#[derive(Clone, Copy, Debug, PartialEq, Eq, Structural)]
pub struct DisplayMode {
    pub width: u32,
    pub height: u32,
    pub pixel_width: u32,
    pub pixel_height: u32,
}

/// Pixels per point, as a fraction.
#[derive(Clone, Copy, Debug, PartialEq, Eq, Structural)]
pub struct Scale {
    pub pixels: u128,
    pub points: u128,
}

/// A side has as many pixels as points at least, and some points.
pub open spec fn usable(points: u32, pixels: u32) -> bool {
    points > 0 && pixels >= points
}

/// The mean of the scales of both sides; the scale of one side if the other one is
/// not usable; 2 if none is, or if the display is not known.
pub open spec fn scale_of(mode: Option<DisplayMode>) -> Scale {
    match mode {
        None => Scale { pixels: 2, points: 1 },
        Some(m) => {
            let x = usable(m.width, m.pixel_width);
            let y = usable(m.height, m.pixel_height);
            if x && y {
                Scale {
                    pixels: (m.pixel_width * m.height + m.pixel_height * m.width) as u128,
                    points: (2 * (m.width * m.height)) as u128,
                }
            } else if x {
                Scale { pixels: m.pixel_width as u128, points: m.width as u128 }
            } else if y {
                Scale { pixels: m.pixel_height as u128, points: m.height as u128 }
            } else {
                Scale { pixels: 2, points: 1 }
            }
        },
    }
}

proof fn lemma_product_fits(a: u32, b: u32)
    ensures
        0 <= a * b <= 0xffff_ffff_ffff_ffff,
{
    assert(0 <= a * b <= 0xffff_ffff * 0xffff_ffff) by (nonlinear_arith)
        requires
            0 <= a <= 0xffff_ffff,
            0 <= b <= 0xffff_ffff,
    ;
}

/// The scale of a display; `None` if there is no display, or its mode is not known.
pub fn display_scale_for_bounds(mode: Option<DisplayMode>) -> (r: Scale)
    ensures
        r == scale_of(mode),
{
    let m = match mode {
        Some(m) => m,
        None => {
            return Scale { pixels: 2, points: 1 };
        },
    };
    let x = m.width > 0 && m.pixel_width >= m.width;
    let y = m.height > 0 && m.pixel_height >= m.height;
    if x && y {
        proof {
            lemma_product_fits(m.pixel_width, m.height);
            lemma_product_fits(m.pixel_height, m.width);
            lemma_product_fits(m.width, m.height);
        }
        Scale {
            pixels: m.pixel_width as u128 * m.height as u128 + m.pixel_height as u128
                * m.width as u128,
            points: 2 * (m.width as u128 * m.height as u128),
        }
    } else if x {
        Scale { pixels: m.pixel_width as u128, points: m.width as u128 }
    } else if y {
        Scale { pixels: m.pixel_height as u128, points: m.height as u128 }
    } else {
        Scale { pixels: 2, points: 1 }
    }
}

/// The middle is as far from one side of the rectangle as from the other.
pub proof fn law_center_is_in_the_middle(bounds: CGRect)
    ensures
        center(bounds).x - 2 * bounds.origin.x == 2 * (bounds.origin.x + bounds.size.width)
            - center(bounds).x,
        center(bounds).y - 2 * bounds.origin.y == 2 * (bounds.origin.y + bounds.size.height)
            - center(bounds).y,
{
}

/// A point never has less than one pixel.
pub proof fn law_scale_is_at_least_one(mode: Option<DisplayMode>)
    ensures
        scale_of(mode).points > 0,
        scale_of(mode).pixels >= scale_of(mode).points,
{
    if let Some(m) = mode {
        lemma_product_fits(m.pixel_width, m.height);
        lemma_product_fits(m.pixel_height, m.width);
        lemma_product_fits(m.width, m.height);
        if usable(m.width, m.pixel_width) && usable(m.height, m.pixel_height) {
            assert(m.pixel_width * m.height >= m.width * m.height && m.pixel_height * m.width
                >= m.width * m.height && m.width * m.height > 0) by (nonlinear_arith)
                requires
                    m.pixel_width >= m.width > 0,
                    m.pixel_height >= m.height > 0,
            ;
        }
    }
}

/// The scale is the mean of the two sides' pixels per point, if each has some points and
/// no less pixels; that of one side if only that one has; and else 2.
pub proof fn law_scale_is_the_mean_of_the_sides(m: DisplayMode)
    ensures
        ({
            let s = scale_of(Some(m));
            let x = m.width > 0 && m.pixel_width >= m.width;
            let y = m.height > 0 && m.pixel_height >= m.height;
            let both = m.pixel_width * m.height + m.pixel_height * m.width;
            &&& x && y ==> s.pixels == both && s.points == 2 * (m.width * m.height)
            &&& x && !y ==> s.pixels == m.pixel_width && s.points == m.width
            &&& !x && y ==> s.pixels == m.pixel_height && s.points == m.height
            &&& !x && !y ==> s.pixels == 2 * s.points
            &&& scale_of(None).pixels == 2 * scale_of(None).points
        }),
{
    lemma_product_fits(m.pixel_width, m.height);
    lemma_product_fits(m.pixel_height, m.width);
    lemma_product_fits(m.width, m.height);
}

/// A display of square pixels, the same number to a point on both sides, has that scale.
pub proof fn law_even_displays_have_their_scale(m: DisplayMode, k: u32)
    requires
        k >= 1,
        m.width > 0,
        m.height > 0,
        m.pixel_width == k * m.width,
        m.pixel_height == k * m.height,
    ensures
        scale_of(Some(m)).pixels == k * scale_of(Some(m)).points,
{
    lemma_product_fits(m.pixel_width, m.height);
    lemma_product_fits(m.pixel_height, m.width);
    lemma_product_fits(m.width, m.height);
    let (w, h, k) = (m.width as int, m.height as int, k as int);
    assert(k * w >= w && k * h >= h && (k * w) * h + (k * h) * w == k * (2 * (w * h)))
        by (nonlinear_arith)
        requires
            k >= 1,
            w > 0,
            h > 0,
    ;
}

}
