use ers::geometry::CGRect;
use ers::window::{
    discover_windows, is_suitable_window, is_suitable_window_metadata, list_windows,
    probe_cg_window_info, ListedWindow, ProbeReport, ProbedWindow, WindowEntry, WindowMetadata,
    WINDOW_ATTRIBUTE_REAL, WINDOW_TAG_ATTACHED, WINDOW_TAG_DOCUMENT, WINDOW_TAG_FLOATING,
    WINDOW_TAG_IGNORES_CYCLE, WINDOW_TAG_MODAL, WINDOW_TAG_REAL_SURFACE,
};

fn document() -> WindowMetadata {
    WindowMetadata {
        parent_wid: 0,
        tags: WINDOW_TAG_DOCUMENT,
        attributes: WINDOW_ATTRIBUTE_REAL,
    }
}

fn entry(wid: u32, pid: i32, layer: i32) -> WindowEntry {
    WindowEntry {
        wid: Some(wid),
        pid: Some(pid),
        layer: Some(layer),
        metadata: Some(document()),
        bounds: Some(CGRect::new(1, 2, 3, 4)),
    }
}

#[test]
fn suitable_window_metadata_matches_document_windows() {
    let metadata = WindowMetadata {
        parent_wid: 0,
        tags: WINDOW_TAG_DOCUMENT,
        attributes: WINDOW_ATTRIBUTE_REAL,
    };
    assert!(is_suitable_window_metadata(metadata));
}

#[test]
fn attached_windows_are_not_suitable_targets() {
    let metadata = WindowMetadata {
        parent_wid: 7,
        tags: WINDOW_TAG_DOCUMENT | WINDOW_TAG_ATTACHED,
        attributes: WINDOW_ATTRIBUTE_REAL,
    };
    assert!(!is_suitable_window_metadata(metadata));
}

#[test]
fn tags_are_these_bits() {
    assert_eq!(WINDOW_TAG_DOCUMENT, 1 << 0);
    assert_eq!(WINDOW_TAG_FLOATING, 1 << 1);
    assert_eq!(WINDOW_ATTRIBUTE_REAL, 1 << 1);
    assert_eq!(WINDOW_TAG_ATTACHED, 1 << 7);
    assert_eq!(WINDOW_TAG_IGNORES_CYCLE, 1 << 18);
    assert_eq!(WINDOW_TAG_MODAL, 1 << 31);
    assert_eq!(WINDOW_TAG_REAL_SURFACE, 1 << 58);
}

#[test]
fn each_condition_of_suitability_counts() {
    let m = document();
    assert!(!is_suitable_window_metadata(WindowMetadata { parent_wid: 1, ..m }));
    assert!(!is_suitable_window_metadata(WindowMetadata { attributes: 0, ..m }));
    assert!(is_suitable_window_metadata(WindowMetadata {
        attributes: 0,
        tags: WINDOW_TAG_DOCUMENT | WINDOW_TAG_REAL_SURFACE,
        ..m
    }));
    assert!(!is_suitable_window_metadata(WindowMetadata {
        tags: WINDOW_TAG_DOCUMENT | WINDOW_TAG_ATTACHED,
        ..m
    }));
    assert!(!is_suitable_window_metadata(WindowMetadata {
        tags: WINDOW_TAG_DOCUMENT | WINDOW_TAG_IGNORES_CYCLE,
        ..m
    }));
    assert!(!is_suitable_window_metadata(WindowMetadata { tags: WINDOW_TAG_FLOATING, ..m }));
    assert!(!is_suitable_window_metadata(WindowMetadata { tags: WINDOW_TAG_MODAL, ..m }));
    assert!(is_suitable_window_metadata(WindowMetadata {
        tags: WINDOW_TAG_FLOATING | WINDOW_TAG_MODAL,
        ..m
    }));
}

#[test]
fn unknown_windows_are_not_suitable() {
    assert!(!is_suitable_window(None));
    assert!(is_suitable_window(Some(document())));
}

#[test]
fn discovery_keeps_suitable_windows_of_others() {
    let entries = vec![
        entry(10, 5, 0),
        entry(11, 1, 0),
        entry(12, 5, 3),
        entry(0, 5, 0),
        WindowEntry { layer: None, ..entry(13, 5, 0) },
        WindowEntry { metadata: None, ..entry(14, 5, 0) },
        WindowEntry { pid: None, ..entry(15, 5, 0) },
        WindowEntry { wid: None, ..entry(16, 5, 0) },
        entry(17, 6, 0),
    ];
    assert_eq!(discover_windows(1, &entries), vec![10, 15, 17]);
    assert_eq!(discover_windows(0, &entries), vec![10, 11, 17]);
}

#[test]
fn the_listing_shows_every_ordinary_window() {
    let entries = vec![
        entry(10, 5, 0),
        entry(11, 1, 25),
        WindowEntry { bounds: None, metadata: None, ..entry(12, 1, 0) },
        entry(0, 1, 0),
    ];
    assert_eq!(
        list_windows(&entries),
        vec![
            ListedWindow { wid: 10, bounds: CGRect::new(1, 2, 3, 4) },
            ListedWindow { wid: 12, bounds: CGRect::new(0, 0, 0, 0) },
        ]
    );
}

#[test]
fn a_probe_reports_the_first_row_of_a_window() {
    let rows = vec![
        ProbedWindow { wid: None, sharing: Some(2), layer: Some(0), on_screen_present: true },
        ProbedWindow { wid: Some(8), sharing: None, layer: None, on_screen_present: false },
        ProbedWindow { wid: Some(8), sharing: Some(1), layer: Some(3), on_screen_present: true },
    ];
    assert_eq!(
        probe_cg_window_info(&rows, 8),
        Some(ProbeReport { index: 1, sharing: -1, layer: i32::MIN, on_screen_present: false })
    );
    assert_eq!(probe_cg_window_info(&rows, 9), None);
    assert_eq!(
        probe_cg_window_info(&rows, 0).map(|r| (r.index, r.sharing)),
        Some((0, 2))
    );
}
