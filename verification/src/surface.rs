//! Telling when two windows are one surface on the screen.
//!
//! An application can put several windows in one place: a browser shows its tab
//! strip as a window of its own ahead of the outer one. Two windows that share
//! nine tenths of the smaller one are taken for one surface, and the larger is
//! the one that gets the border.

use crate::geometry::{CGRect, GEOMETRY_EPSILON, MIN_TRACKED_WINDOW_SIZE, POINT};
use vstd::prelude::*;

verus! {

#[derive(Clone, Copy, Debug, PartialEq, Eq, Structural)]
pub enum SurfacePreference {
    KeepExisting,
    ReplaceExisting,
}

/// Width times height.
pub open spec fn area(b: CGRect) -> int {
    b.size.width * b.size.height
}

/// Length that two intervals share, each given by its start and its length.
pub open spec fn shared_length(start_a: int, len_a: int, start_b: int, len_b: int) -> int {
    let start = if start_a > start_b { start_a } else { start_b };
    let end = if start_a + len_a < start_b + len_b { start_a + len_a } else { start_b + len_b };
    if end > start {
        end - start
    } else {
        0
    }
}

/// Area that two rectangles share.
pub open spec fn shared_area(a: CGRect, b: CGRect) -> int {
    shared_length(a.origin.x as int, a.size.width as int, b.origin.x as int, b.size.width as int)
        * shared_length(
        a.origin.y as int,
        a.size.height as int,
        b.origin.y as int,
        b.size.height as int,
    )
}

/// The area of the smaller of two rectangles.
pub open spec fn smaller_area(a: CGRect, b: CGRect) -> int {
    if area(a) < area(b) {
        area(a)
    } else {
        area(b)
    }
}

/// The rectangles share at least nine tenths of the smaller one.
pub open spec fn same_surface(a: CGRect, b: CGRect) -> bool {
    smaller_area(a, b) > 0 && 10 * shared_area(a, b) >= 9 * smaller_area(a, b)
}

/// Which of two windows keeps the border: none of the two gives way to the other
/// unless they are one surface, and then the candidate wins by being larger.
pub open spec fn preference(existing: CGRect, candidate: CGRect) -> Option<SurfacePreference> {
    if !same_surface(existing, candidate) {
        None
    } else if area(candidate) > area(existing) {
        Some(SurfacePreference::ReplaceExisting)
    } else {
        Some(SurfacePreference::KeepExisting)
    }
}

proof fn lemma_product_range(x: i64, y: i64)
    ensures
        -0x4000_0000_0000_0000_0000_0000_0000_0000 <= x * y,
        x * y <= 0x4000_0000_0000_0000_0000_0000_0000_0000,
{
    assert(-0x4000_0000_0000_0000_0000_0000_0000_0000 <= x * y
        <= 0x4000_0000_0000_0000_0000_0000_0000_0000) by (nonlinear_arith)
        requires
            -0x8000_0000_0000_0000 <= x <= 0x7fff_ffff_ffff_ffff,
            -0x8000_0000_0000_0000 <= y <= 0x7fff_ffff_ffff_ffff,
    ;
}

pub fn window_area(bounds: CGRect) -> (r: i128)
    ensures
        r == area(bounds),
{
    proof {
        lemma_product_range(bounds.size.width, bounds.size.height);
    }
    bounds.size.width as i128 * bounds.size.height as i128
}

fn overlap(start_a: i64, len_a: i64, start_b: i64, len_b: i64) -> (r: i64)
    ensures
        r == shared_length(start_a as int, len_a as int, start_b as int, len_b as int),
        r >= 0,
{
    let start: i128 = if start_a > start_b { start_a as i128 } else { start_b as i128 };
    let end_a: i128 = start_a as i128 + len_a as i128;
    let end_b: i128 = start_b as i128 + len_b as i128;
    let end: i128 = if end_a < end_b { end_a } else { end_b };
    if end > start {
        (end - start) as i64
    } else {
        0
    }
}

pub fn intersection_area(a: CGRect, b: CGRect) -> (r: i128)
    ensures
        r == shared_area(a, b),
        r >= 0,
{
    let width = overlap(a.origin.x, a.size.width, b.origin.x, b.size.width);
    let height = overlap(a.origin.y, a.size.height, b.origin.y, b.size.height);
    proof {
        lemma_product_range(width, height);
        assert(width * height >= 0) by (nonlinear_arith)
            requires
                width >= 0,
                height >= 0,
        ;
    }
    width as i128 * height as i128
}

/// Two rectangles share no more than either has, unless that is less than nothing.
proof fn lemma_shared_at_most(a: CGRect, b: CGRect)
    requires
        area(a) > 0,
        area(b) > 0,
    ensures
        0 <= shared_area(a, b),
        shared_area(a, b) <= area(a),
        shared_area(a, b) <= area(b),
{
    let w = shared_length(
        a.origin.x as int,
        a.size.width as int,
        b.origin.x as int,
        b.size.width as int,
    );
    let h = shared_length(
        a.origin.y as int,
        a.size.height as int,
        b.origin.y as int,
        b.size.height as int,
    );
    lemma_shared_product(w, h, a.size.width as int, a.size.height as int);
    lemma_shared_product(w, h, b.size.width as int, b.size.height as int);
}

proof fn lemma_shared_product(w: int, h: int, width: int, height: int)
    by (nonlinear_arith)
    requires
        width * height > 0,
        0 <= w,
        0 <= h,
        w == 0 || w <= width,
        h == 0 || h <= height,
    ensures
        0 <= w * h,
        w * h <= width * height,
{
}

pub fn is_same_window_surface(a: CGRect, b: CGRect) -> (r: bool)
    ensures
        r == same_surface(a, b),
{
    let area_a = window_area(a);
    let area_b = window_area(b);
    let smaller: i128 = if area_a < area_b { area_a } else { area_b };
    if smaller <= 0 {
        return false;
    }
    proof {
        lemma_shared_at_most(a, b);
    }
    // What is not shared is at most a tenth of the smaller one.
    smaller - intersection_area(a, b) <= smaller / 10
}

pub fn surface_preference(existing: CGRect, candidate: CGRect) -> (r: Option<SurfacePreference>)
    ensures
        r == preference(existing, candidate),
{
    if !is_same_window_surface(existing, candidate) {
        return None;
    }
    if window_area(candidate) > window_area(existing) {
        Some(SurfacePreference::ReplaceExisting)
    } else {
        Some(SurfacePreference::KeepExisting)
    }
}

/// The shortest side that a window with a border may have.
pub open spec fn least_side(border_width: i64) -> i64 {
    if border_width > MIN_TRACKED_WINDOW_SIZE {
        border_width
    } else {
        MIN_TRACKED_WINDOW_SIZE
    }
}

/// Both sides are long enough for a border.
pub open spec fn trackable(bounds: CGRect, border_width: i64) -> bool {
    bounds.size.width >= least_side(border_width) && bounds.size.height >= least_side(border_width)
}

pub fn minimum_trackable_dimension(border_width: i64) -> (r: i64)
    ensures
        r == least_side(border_width),
{
    if border_width > MIN_TRACKED_WINDOW_SIZE {
        border_width
    } else {
        MIN_TRACKED_WINDOW_SIZE
    }
}

pub fn is_trackable_window(bounds: CGRect, border_width: i64) -> (r: bool)
    ensures
        r == trackable(bounds, border_width),
{
    let min_dimension = minimum_trackable_dimension(border_width);
    bounds.size.width >= min_dimension && bounds.size.height >= min_dimension
}

/// Two lengths differ by more than the tolerance.
pub open spec fn differ(a: int, b: int) -> bool {
    a - b > GEOMETRY_EPSILON || b - a > GEOMETRY_EPSILON
}

/// The rectangles stand in different places.
pub open spec fn moved(a: CGRect, b: CGRect) -> bool {
    differ(a.origin.x as int, b.origin.x as int) || differ(a.origin.y as int, b.origin.y as int)
}

/// The rectangles have different sizes.
pub open spec fn resized(a: CGRect, b: CGRect) -> bool {
    differ(a.size.width as int, b.size.width as int) || differ(
        a.size.height as int,
        b.size.height as int,
    )
}

fn lengths_differ(a: i64, b: i64) -> (r: bool)
    ensures
        r == differ(a as int, b as int),
{
    let gap: i128 = a as i128 - b as i128;
    gap > GEOMETRY_EPSILON as i128 || -gap > GEOMETRY_EPSILON as i128
}

pub fn origin_changed(a: CGRect, b: CGRect) -> (r: bool)
    ensures
        r == moved(a, b),
{
    lengths_differ(a.origin.x, b.origin.x) || lengths_differ(a.origin.y, b.origin.y)
}

pub fn size_changed(a: CGRect, b: CGRect) -> (r: bool)
    ensures
        r == resized(a, b),
{
    lengths_differ(a.size.width, b.size.width) || lengths_differ(a.size.height, b.size.height)
}

/// Which of two windows is named first makes no difference to whether they are
/// one surface.
pub proof fn law_same_surface_is_symmetric(a: CGRect, b: CGRect)
    ensures
        shared_area(a, b) == shared_area(b, a),
        same_surface(a, b) == same_surface(b, a),
{
}

/// Rectangles that lie beside each other share nothing and are two surfaces.
pub proof fn law_apart_is_not_same_surface(a: CGRect, b: CGRect)
    requires
        a.origin.x + a.size.width <= b.origin.x || b.origin.x + b.size.width <= a.origin.x
            || a.origin.y + a.size.height <= b.origin.y || b.origin.y + b.size.height <= a.origin.y,
    ensures
        shared_area(a, b) == 0,
        !same_surface(a, b),
{
    let w = shared_length(
        a.origin.x as int,
        a.size.width as int,
        b.origin.x as int,
        b.size.width as int,
    );
    let h = shared_length(
        a.origin.y as int,
        a.size.height as int,
        b.origin.y as int,
        b.size.height as int,
    );
    assert(w * h == 0) by (nonlinear_arith)
        requires
            w == 0 || h == 0,
    ;
}

/// `inner` lies within `outer`.
pub open spec fn within(inner: CGRect, outer: CGRect) -> bool {
    &&& outer.origin.x <= inner.origin.x
    &&& inner.origin.x + inner.size.width <= outer.origin.x + outer.size.width
    &&& outer.origin.y <= inner.origin.y
    &&& inner.origin.y + inner.size.height <= outer.origin.y + outer.size.height
}

/// A window that lies within another one is one surface with it, and of the two
/// the outer one keeps the border or takes it over.
pub proof fn law_contained_is_same_surface(inner: CGRect, outer: CGRect)
    requires
        inner.size.width > 0,
        inner.size.height > 0,
        within(inner, outer),
    ensures
        same_surface(inner, outer),
        preference(outer, inner) == Some(SurfacePreference::KeepExisting),
        preference(inner, outer) == (if area(outer) > area(inner) {
            Some(SurfacePreference::ReplaceExisting)
        } else {
            Some(SurfacePreference::KeepExisting)
        }),
{
    let (w, h) = (inner.size.width as int, inner.size.height as int);
    let (ow, oh) = (outer.size.width as int, outer.size.height as int);
    assert(0 < w * h && w * h <= ow * oh) by (nonlinear_arith)
        requires
            0 < w <= ow,
            0 < h <= oh,
    ;
    assert(shared_area(inner, outer) == area(inner));
    assert(shared_area(outer, inner) == area(inner));
}

/// One window takes the border over from another only by being larger, so that
/// two windows cannot take it over from each other.
pub proof fn law_larger_surface_wins(a: CGRect, b: CGRect)
    ensures
        preference(a, b) == Some(SurfacePreference::ReplaceExisting) ==> area(b) > area(a)
            && preference(b, a) == Some(SurfacePreference::KeepExisting),
        preference(a, b) is None <==> preference(b, a) is None,
{
    law_same_surface_is_symmetric(a, b);
}

/// Whatever the border width, a window with a side under four points, and so one
/// without any extent, gets no border, and a window with room for the border and
/// those four points gets one.
pub proof fn law_trackable_sizes(bounds: CGRect, border_width: i64)
    ensures
        trackable(bounds, border_width) ==> bounds.size.width >= MIN_TRACKED_WINDOW_SIZE
            && bounds.size.height >= MIN_TRACKED_WINDOW_SIZE,
        trackable(bounds, border_width) <==> (bounds.size.width >= border_width
            && bounds.size.width >= MIN_TRACKED_WINDOW_SIZE && bounds.size.height >= border_width
            && bounds.size.height >= MIN_TRACKED_WINDOW_SIZE),
        MIN_TRACKED_WINDOW_SIZE == 4 * POINT,
{
}

/// The unit squares that a rectangle covers, each by its least corner.
pub open spec fn cells(b: CGRect) -> Set<(int, int)> {
    Set::new(
        |c: (int, int)|
            b.origin.x <= c.0 < b.origin.x + b.size.width && b.origin.y <= c.1 < b.origin.y
                + b.size.height,
    )
}

/// The unit squares from `x` and `y` on, `w` by `h` of them.
spec fn block(x: int, y: int, w: int, h: int) -> Set<(int, int)> {
    Set::new(|c: (int, int)| x <= c.0 < x + w && y <= c.1 < y + h)
}

proof fn lemma_block_size(x: int, y: int, w: int, h: int)
    requires
        w >= 0,
        h >= 0,
    ensures
        block(x, y, w, h).finite(),
        block(x, y, w, h).len() == w * h,
    decreases w,
{
    if w == 0 {
        assert(block(x, y, w, h) =~= Set::empty());
        assert(w * h == 0) by (nonlinear_arith)
            requires
                w == 0,
        ;
    } else {
        let last = x + w - 1;
        let rest = block(x, y, w - 1, h);
        let column = block(last, y, 1, h);
        let at = |j: int| (last, j);
        let rows = vstd::set_lib::set_int_range(y, y + h);
        vstd::set_lib::lemma_int_range(y, y + h);
        assert(rows.map(at) =~= column) by {
            assert forall|c: (int, int)| column.contains(c) implies rows.map(at).contains(c) by {
                assert(rows.contains(c.1) && at(c.1) == c);
            }
        }
        vstd::set_lib::lemma_map_size(rows, column, at);
        lemma_block_size(x, y, w - 1, h);
        assert(rest + column =~= block(x, y, w, h));
        assert(rest.disjoint(column));
        vstd::set_lib::lemma_set_disjoint_lens(rest, column);
        assert((w - 1) * h + h == w * h) by (nonlinear_arith);
    }
}

/// The area of a rectangle is the number of unit squares in it, and the area that two
/// of them share is the number of those that lie in both.
pub proof fn law_areas_count_cells(a: CGRect, b: CGRect)
    requires
        has_sides(a),
        has_sides(b),
    ensures
        cells(a).finite(),
        cells(a).len() == area(a),
        cells(a).intersect(cells(b)).finite(),
        cells(a).intersect(cells(b)).len() == shared_area(a, b),
{
    let (ax, ay) = (a.origin.x as int, a.origin.y as int);
    let (left, top) = (b.origin.x as int, b.origin.y as int);
    assert(cells(a) =~= block(ax, ay, a.size.width as int, a.size.height as int));
    lemma_block_size(ax, ay, a.size.width as int, a.size.height as int);
    let w = shared_length(ax, a.size.width as int, left, b.size.width as int);
    let h = shared_length(ay, a.size.height as int, top, b.size.height as int);
    let x = if ax > left { ax } else { left };
    let y = if ay > top { ay } else { top };
    lemma_block_size(x, y, w, h);
    assert(cells(a).intersect(cells(b)) =~= block(x, y, w, h));
}

/// Both sets have members, and one of them has nine tenths at least of its own in common
/// with the other.
pub open spec fn mostly_shared(a: Set<(int, int)>, b: Set<(int, int)>) -> bool {
    let shared = a.intersect(b).len();
    &&& a.len() > 0
    &&& b.len() > 0
    &&& 10 * shared >= 9 * a.len() || 10 * shared >= 9 * b.len()
}

/// No side of the rectangle is negative.
pub open spec fn has_sides(b: CGRect) -> bool {
    b.size.width >= 0 && b.size.height >= 0
}

/// Two windows are one surface exactly if nine tenths at least of the unit squares of
/// the one that has fewer lie in the other one too, and there are any. A window with
/// a negative side is one surface with no other.
pub proof fn law_one_surface_is_nine_tenths_shared(a: CGRect, b: CGRect)
    ensures
        has_sides(a) && has_sides(b) ==> same_surface(a, b) == mostly_shared(cells(a), cells(b)),
        !has_sides(a) || !has_sides(b) ==> !same_surface(a, b),
{
    if has_sides(a) && has_sides(b) {
        law_areas_count_cells(a, b);
        law_areas_count_cells(b, a);
    } else {
        let w = shared_length(
            a.origin.x as int,
            a.size.width as int,
            b.origin.x as int,
            b.size.width as int,
        );
        let h = shared_length(
            a.origin.y as int,
            a.size.height as int,
            b.origin.y as int,
            b.size.height as int,
        );
        assert(w * h == 0) by (nonlinear_arith)
            requires
                w == 0 || h == 0,
        ;
    }
}

/// Windows of one size that are shifted against each other are one surface exactly as
/// long as nine tenths of their area stay shared: a shift of both sides counts twice.
pub proof fn law_shifted_windows(a: CGRect, b: CGRect, dx: int, dy: int)
    requires
        a.size == b.size,
        0 <= dx <= a.size.width,
        0 <= dy <= a.size.height,
        b.origin.x - a.origin.x == dx || a.origin.x - b.origin.x == dx,
        b.origin.y - a.origin.y == dy || a.origin.y - b.origin.y == dy,
        a.size.width > 0,
        a.size.height > 0,
    ensures
        same_surface(a, b) <==> 10 * ((a.size.width - dx) * (a.size.height - dy)) >= 9 * (
        a.size.width * a.size.height),
{
    let (w, h) = (a.size.width as int, a.size.height as int);
    assert(w * h > 0) by (nonlinear_arith)
        requires
            w > 0,
            h > 0,
    ;
    assert(shared_area(a, b) == (w - dx) * (h - dy));
}

/// Moving both windows by the same way changes nothing.
pub proof fn law_surfaces_do_not_depend_on_the_place(a: CGRect, b: CGRect, c: CGRect, d: CGRect)
    requires
        c.size == a.size,
        d.size == b.size,
        c.origin.x - a.origin.x == d.origin.x - b.origin.x,
        c.origin.y - a.origin.y == d.origin.y - b.origin.y,
    ensures
        same_surface(a, b) == same_surface(c, d),
        preference(a, b) == preference(c, d),
{
}

/// Of two windows that are one surface, and of no others, one keeps or takes the border:
/// the one that has it, unless the other one has more unit squares.
pub proof fn law_preference_is_for_more_cells(existing: CGRect, candidate: CGRect)
    requires
        has_sides(existing),
        has_sides(candidate),
    ensures
        preference(existing, candidate) == (if !mostly_shared(cells(existing), cells(candidate)) {
            None
        } else if cells(candidate).len() > cells(existing).len() {
            Some(SurfacePreference::ReplaceExisting)
        } else {
            Some(SurfacePreference::KeepExisting)
        }),
{
    law_one_surface_is_nine_tenths_shared(existing, candidate);
    law_areas_count_cells(existing, candidate);
    law_areas_count_cells(candidate, existing);
}

/// Two rectangles are in one place, or of one size, if and only if neither of the two
/// numbers is further than half a point from the other's.
pub proof fn law_half_a_point_is_no_change(a: CGRect, b: CGRect)
    ensures
        !moved(a, b) <==> {
            &&& -POINT <= 2 * (a.origin.x - b.origin.x) <= POINT
            &&& -POINT <= 2 * (a.origin.y - b.origin.y) <= POINT
        },
        !resized(a, b) <==> {
            &&& -POINT <= 2 * (a.size.width - b.size.width) <= POINT
            &&& -POINT <= 2 * (a.size.height - b.size.height) <= POINT
        },
{
}

}
