use ers::color::Color;
use ers::construction::{
    create_overlay, Part, Stage, Step, OVERLAY_OPTIONS, OVERLAY_TAGS, SHARING_NONE,
};
use ers::display::{display_point, display_scale_for_bounds, DisplayMode, Scale};
use ers::geometry::{CGPoint, CGRect, CGSize, HalfPoint, HalfRect, POINT};
use ers::overlay::{
    cg_to_cocoa_frame, draw_border, frame_around, inset_for_stroke, lay_out, placed_correctly,
    OverlayWindow,
};

const RED: Color = Color { r: 255, g: 0, b: 0, a: 255 };

fn rect(x: i64, y: i64, w: i64, h: i64) -> CGRect {
    CGRect::new(x * POINT, y * POINT, w * POINT, h * POINT)
}

/// Halves of a unit in one point.
const HALVES: i128 = 2 * POINT as i128;

fn half_rect(x: i128, y: i128, w: i128, h: i128) -> HalfRect {
    HalfRect { x: x * HALVES, y: y * HALVES, width: w * HALVES, height: h * HALVES }
}

fn size(w: i64, h: i64) -> CGSize {
    CGSize { width: w * POINT, height: h * POINT }
}

#[test]
fn overlays_remember_their_targets() {
    let mut overlay = OverlayWindow::new(77, 1, 2, 3, 4, 5, 6);
    assert_eq!(overlay.wid(), 77);
    overlay.set_bounds(9, 8, 7, 6);
    assert_eq!(
        (overlay.bounds_cg_x, overlay.bounds_cg_y, overlay.bounds_cg_w, overlay.bounds_cg_h),
        (9, 8, 7, 6)
    );
    assert_eq!((overlay.border_width, overlay.radius, overlay.wid()), (5, 6, 77));
}

#[test]
fn an_overlay_is_laid_out_around_its_target() {
    let layout = lay_out(rect(100, 50, 300, 200), 4 * POINT, 10 * POINT, 1000 * POINT);
    assert_eq!(layout.frame, rect(96, 46, 308, 208));
    assert_eq!(layout.cocoa_frame, rect(96, 746, 308, 208));
    assert_eq!(layout.path, half_rect(2, 2, 304, 204));
    assert_eq!(layout.layer_frame, rect(0, 0, 308, 208));
    assert_eq!(layout.line_width, 4 * POINT);
    assert_eq!(layout.corner_radius, 10 * POINT);
}

#[test]
fn frames_are_turned_upside_down() {
    let cg = rect(10, 20, 30, 40);
    let cocoa = cg_to_cocoa_frame(cg, 900 * POINT);
    assert_eq!(cocoa, rect(10, 840, 30, 40));
    assert_eq!(cg_to_cocoa_frame(cocoa, 900 * POINT), cg);
    assert_eq!(
        cg_to_cocoa_frame(CGRect::new(0, i64::MAX, 0, i64::MAX), 0).origin.y,
        i64::MIN
    );
}

#[test]
fn frames_stop_at_the_end_of_the_range() {
    let frame = frame_around(CGRect::new(i64::MIN, 0, i64::MAX, 0), POINT);
    assert_eq!(frame.origin.x, i64::MIN);
    assert_eq!(frame.size.width, i64::MAX);
    assert_eq!(frame.size.height, 2 * POINT);
}

#[test]
fn strokes_never_have_negative_sides() {
    assert_eq!(inset_for_stroke(size(10, 3), 4 * POINT), half_rect(2, 2, 6, 0));
}

#[test]
fn the_corner_radius_fits_the_path() {
    let stroke = draw_border(308 * POINT, 28 * POINT, 4 * POINT, 10 * POINT);
    assert_eq!(stroke.full, rect(0, 0, 308, 28));
    assert_eq!(stroke.path, half_rect(2, 2, 304, 24));
    assert_eq!(stroke.corner_radius, 10 * HALVES);
    assert_eq!(stroke.line_width, 4 * POINT);
    let tight = draw_border(308 * POINT, 14 * POINT, 4 * POINT, 10 * POINT);
    assert_eq!(tight.corner_radius, 5 * HALVES);
    let none = draw_border(308 * POINT, 2 * POINT, 4 * POINT, 10 * POINT);
    assert_eq!(none.path.height, -2 * HALVES);
    assert_eq!(none.corner_radius, 0);
    let negative = draw_border(308 * POINT, 28 * POINT, 4 * POINT, -POINT);
    assert_eq!(negative.corner_radius, -HALVES);
}

#[test]
fn an_odd_number_of_units_is_halved_exactly() {
    let layout = lay_out(CGRect::new(10, 20, 40, 30), 3, 4, 100);
    assert_eq!(layout.frame, CGRect::new(7, 17, 46, 36));
    assert_eq!(layout.path, HalfRect { x: 3, y: 3, width: 86, height: 66 });
    // The stroke reaches three half units to either side of its path.
    assert_eq!(layout.path.x - 3, 0);
    assert_eq!(layout.path.x + layout.path.width + 3, 2 * 46);
    assert_eq!(layout.path.width - 6, 2 * 40);
    let stroke = draw_border(46, 8, 3, 4);
    assert_eq!(stroke.path, HalfRect { x: 3, y: 3, width: 86, height: 10 });
    assert_eq!(stroke.corner_radius, 5);
    assert_eq!(draw_border(46, 8, 3, 2).corner_radius, 4);
    assert_eq!(draw_border(5, 8, 8, 2).corner_radius, 0);
}

#[test]
fn windows_are_where_they_should_be_to_half_a_point() {
    let wanted = CGPoint { x: 5 * POINT, y: 5 * POINT };
    let near = CGPoint { x: wanted.x + POINT / 2 - 1, y: wanted.y - POINT / 2 + 1 };
    assert!(placed_correctly(near, wanted));
    assert!(!placed_correctly(CGPoint { x: wanted.x + POINT / 2, ..wanted }, wanted));
    assert!(!placed_correctly(CGPoint { y: wanted.y - POINT / 2, ..wanted }, wanted));
}

#[test]
fn the_middle_of_a_window_picks_its_display() {
    assert_eq!(
        display_point(rect(100, -50, 300, 200)),
        HalfPoint { x: 250 * HALVES, y: 50 * HALVES }
    );
    assert_eq!(display_point(CGRect::new(0, 1, 3, -3)), HalfPoint { x: 3, y: -1 });
}

#[test]
fn the_scale_is_pixels_per_point() {
    let mode = |width, height, pixel_width, pixel_height| {
        display_scale_for_bounds(Some(DisplayMode { width, height, pixel_width, pixel_height }))
    };
    let both = mode(1512, 982, 3024, 1964);
    assert_eq!(both.pixels, 2 * both.points);
    let mixed = mode(10, 10, 10, 30);
    assert_eq!(mixed.pixels, 2 * mixed.points);
    assert_eq!(mode(10, 10, 15, 5), Scale { pixels: 15, points: 10 });
    assert_eq!(mode(0, 10, 15, 25), Scale { pixels: 25, points: 10 });
    assert_eq!(mode(10, 10, 5, 5), Scale { pixels: 2, points: 1 });
    assert_eq!(display_scale_for_bounds(None), Scale { pixels: 2, points: 1 });
    let huge = mode(u32::MAX, u32::MAX, u32::MAX, u32::MAX);
    assert_eq!(huge.pixels, huge.points);
}

#[test]
fn an_overlay_is_built_step_by_step() {
    let scale = Scale { pixels: 2, points: 1 };
    let (mut build, first) = create_overlay(
        9,
        Some(rect(100, 50, 300, 200)),
        4 * POINT,
        10 * POINT,
        RED,
        scale,
    )
    .unwrap();
    assert_eq!(first, Step::MakeRegion(rect(0, 0, 308, 208)));
    assert_eq!(build.advance(1), vec![Step::MakeEmptyRegion(rect(0, 0, 0, 0))]);
    assert_eq!(
        build.advance(1),
        vec![Step::MakeWindow(
            CGPoint { x: 96 * POINT, y: 46 * POINT },
            13 | (1 << 18),
            (1 << 1) | (1 << 9)
        )]
    );
    assert_eq!(OVERLAY_OPTIONS, 13 | (1 << 18));
    assert_eq!(OVERLAY_TAGS, (1 << 1) | (1 << 9));
    assert_eq!(
        build.advance(55),
        vec![
            Step::Release(Part::Region),
            Step::Release(Part::EmptyRegion),
            Step::SetSharing(55, SHARING_NONE),
            Step::SetResolution(55, scale),
            Step::SetOpacity(55, false),
            Step::SetLevel(55, 0),
            Step::Order(55, 1, 9),
            Step::MakeContext(55),
        ]
    );
    let stroke = draw_border(308 * POINT, 208 * POINT, 4 * POINT, 10 * POINT);
    assert_eq!(
        build.advance(1),
        vec![
            Step::Draw(stroke, RED),
            Step::Flush(55),
            Step::Release(Part::Context),
            Step::SetTags(55, OVERLAY_TAGS),
            Step::ClearTags(55, 0),
        ]
    );
    assert_eq!(build.stage, Stage::Built(55));
    assert!(build.advance(1).is_empty());
}

#[test]
fn a_failed_build_leaves_nothing_behind() {
    let scale = Scale { pixels: 2, points: 1 };
    let start = create_overlay(9, Some(rect(0, 0, 300, 200)), POINT, POINT, RED, scale)
        .unwrap()
        .0;
    let fail_after = |good: u32| {
        let mut build = start;
        let mut steps = Vec::new();
        for _ in 0..good {
            steps = build.advance(5);
        }
        assert!(!steps.contains(&Step::Flush(5)));
        let last = build.advance(0);
        assert_eq!(build.stage, Stage::Failed);
        last
    };
    assert_eq!(fail_after(0), vec![]);
    assert_eq!(fail_after(1), vec![Step::Release(Part::Region)]);
    assert_eq!(
        fail_after(2),
        vec![Step::Release(Part::Region), Step::Release(Part::EmptyRegion)]
    );
    assert_eq!(fail_after(3), vec![Step::Release(Part::Window)]);
}

#[test]
fn gone_and_small_targets_get_no_overlay() {
    let scale = Scale { pixels: 2, points: 1 };
    assert_eq!(create_overlay(9, None, POINT, POINT, RED, scale), None);
    assert_eq!(
        create_overlay(9, Some(rect(0, 0, 300, 3)), POINT, POINT, RED, scale),
        None
    );
}
