use ers::focus::get_front_window;
use ers::geometry::CGRect;
use ers::window::{
    WindowEntry, WindowMetadata, WINDOW_ATTRIBUTE_REAL, WINDOW_TAG_ATTACHED, WINDOW_TAG_DOCUMENT,
};

fn entry(wid: u32, pid: i32, bounds: Option<CGRect>) -> WindowEntry {
    WindowEntry {
        wid: Some(wid),
        pid: Some(pid),
        layer: Some(0),
        metadata: Some(WindowMetadata {
            parent_wid: 0,
            tags: WINDOW_TAG_DOCUMENT,
            attributes: WINDOW_ATTRIBUTE_REAL,
        }),
        bounds,
    }
}

fn rect(x: i64, y: i64, w: i64, h: i64) -> Option<CGRect> {
    Some(CGRect::new(x, y, w, h))
}

#[test]
fn focus_follows_the_front_process_not_the_stacking() {
    let entries = vec![
        entry(1, 5, rect(0, 0, 100, 100)),
        entry(2, 6, rect(0, 0, 100, 100)),
        entry(3, 6, rect(500, 0, 100, 100)),
    ];
    assert_eq!(get_front_window(9, 6, &entries), 2);
    assert_eq!(get_front_window(9, 5, &entries), 1);
}

#[test]
fn a_strip_gives_way_to_its_window() {
    let entries = vec![
        entry(1, 5, rect(114, 105, 1160, 140)),
        entry(2, 6, rect(100, 100, 1200, 900)),
        entry(3, 5, rect(100, 100, 1200, 900)),
        entry(4, 5, rect(90, 90, 100, 100)),
    ];
    assert_eq!(get_front_window(9, 5, &entries), 3);
}

#[test]
fn without_windows_of_the_front_process_the_topmost_counts() {
    let entries = vec![
        entry(7, 9, rect(0, 0, 100, 100)),
        entry(1, 5, rect(0, 0, 100, 100)),
        entry(2, 6, rect(0, 0, 100, 100)),
    ];
    assert_eq!(get_front_window(9, 8, &entries), 1);
    assert_eq!(get_front_window(9, 8, &vec![]), 0);
}

#[test]
fn no_front_process_means_no_focus() {
    let entries = vec![entry(1, 5, rect(0, 0, 100, 100))];
    assert_eq!(get_front_window(9, 0, &entries), 0);
    assert_eq!(get_front_window(5, 5, &entries), 0);
}

#[test]
fn unsuitable_windows_never_have_the_focus() {
    let mut attached = entry(1, 5, rect(0, 0, 100, 100));
    attached.metadata = Some(WindowMetadata {
        parent_wid: 0,
        tags: WINDOW_TAG_DOCUMENT | WINDOW_TAG_ATTACHED,
        attributes: WINDOW_ATTRIBUTE_REAL,
    });
    let mut floating = entry(2, 5, rect(0, 0, 100, 100));
    floating.layer = Some(3);
    let entries = vec![attached, floating, entry(3, 5, rect(0, 0, 50, 50))];
    assert_eq!(get_front_window(9, 5, &entries), 3);
}

#[test]
fn a_window_without_bounds_keeps_the_focus() {
    let entries = vec![entry(1, 5, None), entry(2, 5, rect(0, 0, 100, 100))];
    assert_eq!(get_front_window(9, 5, &entries), 1);
    let entries = vec![entry(1, 5, rect(0, 0, 100, 100)), entry(2, 5, None)];
    assert_eq!(get_front_window(9, 5, &entries), 1);
}
