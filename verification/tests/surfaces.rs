use ers::geometry::{CGRect, GEOMETRY_EPSILON, MIN_TRACKED_WINDOW_SIZE, POINT};
use ers::surface::{
    intersection_area, is_same_window_surface, is_trackable_window, minimum_trackable_dimension,
    origin_changed, size_changed, surface_preference, window_area, SurfacePreference,
};

fn units(v: f64) -> i64 {
    (v * POINT as f64).round() as i64
}

fn rect(x: f64, y: f64, w: f64, h: f64) -> CGRect {
    CGRect::new(units(x), units(y), units(w), units(h))
}

#[test]
fn same_surface_detects_contained_strip() {
    let outer = rect(100.0, 100.0, 1200.0, 900.0);
    let strip = rect(114.0, 105.0, 1160.0, 140.0);
    assert!(is_same_window_surface(outer, strip));
}

#[test]
fn different_windows_are_not_treated_as_one_surface() {
    let a = rect(100.0, 100.0, 1200.0, 900.0);
    let b = rect(300.0, 300.0, 1160.0, 140.0);
    assert!(!is_same_window_surface(a, b));
}

#[test]
fn intersection_area_is_zero_without_overlap() {
    let a = rect(100.0, 100.0, 200.0, 200.0);
    let b = rect(400.0, 400.0, 200.0, 200.0);
    assert_eq!(intersection_area(a, b) as f64, 0.0);
}

#[test]
fn same_surface_prefers_larger_bounds() {
    let strip = rect(114.0, 105.0, 1160.0, 140.0);
    let outer = rect(100.0, 100.0, 1200.0, 900.0);
    assert_eq!(
        surface_preference(strip, outer),
        Some(SurfacePreference::ReplaceExisting)
    );
}

#[test]
fn small_windows_remain_trackable() {
    let small = rect(100.0, 100.0, 12.0, 18.0);
    assert!(is_trackable_window(small, units(4.0)));
}

#[test]
fn area_is_width_times_height() {
    let b = rect(-3.0, 9.0, 2.0, 5.0);
    assert_eq!(window_area(b), 10 * (POINT as i128) * (POINT as i128));
}

#[test]
fn overlap_is_the_shared_rectangle() {
    let a = rect(0.0, 0.0, 10.0, 10.0);
    let b = rect(4.0, 7.0, 10.0, 10.0);
    assert_eq!(
        intersection_area(a, b),
        18 * (POINT as i128) * (POINT as i128)
    );
    assert_eq!(intersection_area(b, a), intersection_area(a, b));
}

#[test]
fn nine_tenths_of_the_smaller_window_are_enough() {
    let existing = rect(0.0, 0.0, 100.0, 100.0);
    let at_limit = rect(90.0, 0.0, 100.0, 10.0);
    assert!(!is_same_window_surface(existing, at_limit));
    let nine_tenths = rect(1.0, 0.0, 110.0, 10.0);
    assert!(is_same_window_surface(existing, nine_tenths));
    let just_less = CGRect::new(units(1.0) + 1, 0, units(110.0), units(10.0));
    assert!(!is_same_window_surface(existing, just_less));
}

#[test]
fn being_one_surface_is_mutual() {
    let outer = rect(100.0, 100.0, 1200.0, 900.0);
    let strip = rect(114.0, 105.0, 1160.0, 140.0);
    assert_eq!(
        is_same_window_surface(outer, strip),
        is_same_window_surface(strip, outer)
    );
}

#[test]
fn empty_windows_are_no_surface() {
    let empty = rect(0.0, 0.0, 0.0, 50.0);
    assert!(!is_same_window_surface(empty, empty));
    assert_eq!(surface_preference(empty, empty), None);
}

#[test]
fn the_first_of_two_equal_windows_stays() {
    let a = rect(5.0, 5.0, 300.0, 200.0);
    assert_eq!(
        surface_preference(a, a),
        Some(SurfacePreference::KeepExisting)
    );
}

#[test]
fn apart_windows_have_no_preference() {
    let a = rect(0.0, 0.0, 10.0, 10.0);
    let b = rect(20.0, 0.0, 10.0, 10.0);
    assert_eq!(surface_preference(a, b), None);
}

#[test]
fn extreme_windows_do_not_overflow() {
    let all = CGRect::new(i64::MIN, i64::MIN, i64::MAX, i64::MAX);
    let odd = CGRect::new(i64::MAX, i64::MAX, i64::MIN, i64::MIN);
    assert!(is_same_window_surface(all, all));
    assert!(!is_same_window_surface(all, odd));
    assert!(origin_changed(all, odd));
    assert!(size_changed(all, odd));
}

#[test]
fn sides_are_at_least_four_points_or_the_border_width() {
    assert_eq!(minimum_trackable_dimension(units(1.0)), MIN_TRACKED_WINDOW_SIZE);
    assert_eq!(minimum_trackable_dimension(units(9.0)), units(9.0));
    assert!(is_trackable_window(rect(0.0, 0.0, 4.0, 4.0), units(1.0)));
    assert!(!is_trackable_window(
        CGRect::new(0, 0, units(4.0) - 1, units(4.0)),
        units(1.0)
    ));
    assert!(!is_trackable_window(rect(0.0, 0.0, 100.0, 8.0), units(9.0)));
}

#[test]
fn half_a_point_is_no_change() {
    let a = rect(10.0, 10.0, 50.0, 50.0);
    let shifted = CGRect::new(
        a.origin.x + GEOMETRY_EPSILON,
        a.origin.y,
        a.size.width,
        a.size.height - GEOMETRY_EPSILON,
    );
    assert!(!origin_changed(a, shifted));
    assert!(!size_changed(a, shifted));
    let further = CGRect::new(
        a.origin.x,
        a.origin.y - GEOMETRY_EPSILON - 1,
        a.size.width + GEOMETRY_EPSILON + 1,
        a.size.height,
    );
    assert!(origin_changed(a, further));
    assert!(size_changed(a, further));
}

#[test]
fn rectangles_can_be_inset() {
    let r = rect(10.0, 20.0, 30.0, 40.0).inset(units(2.0), units(3.0));
    assert_eq!(r, rect(12.0, 23.0, 26.0, 34.0));
    let out = rect(10.0, 20.0, 30.0, 40.0).inset(units(-4.0), units(-4.0));
    assert_eq!(out, rect(6.0, 16.0, 38.0, 48.0));
    assert_eq!(CGRect::default(), rect(0.0, 0.0, 0.0, 0.0));
}
