use ers::border::{BorderAction, BorderWindow, TargetFacts, BORDER_LEVEL};
use ers::color::Color;
use ers::config::Config;
use ers::geometry::{CGPoint, CGRect, POINT};
use ers::tracker::{get_front_window, space_ids, FoundWindow, WindowTracker};
use ers::window::{WindowMetadata, WINDOW_ATTRIBUTE_REAL, WINDOW_TAG_DOCUMENT};

const ACTIVE: Color = Color { r: 1, g: 1, b: 1, a: 255 };
const INACTIVE: Color = Color { r: 2, g: 2, b: 2, a: 255 };

fn rect(x: i64, y: i64, w: i64, h: i64) -> CGRect {
    CGRect::new(x * POINT, y * POINT, w * POINT, h * POINT)
}

fn document() -> WindowMetadata {
    WindowMetadata {
        parent_wid: 0,
        tags: WINDOW_TAG_DOCUMENT,
        attributes: WINDOW_ATTRIBUTE_REAL,
    }
}

fn shown(bounds: CGRect) -> TargetFacts {
    TargetFacts { bounds: Some(bounds), shown: true }
}

fn config(active_only: bool) -> Config {
    Config {
        active_color: ACTIVE,
        inactive_color: INACTIVE,
        active_only,
        ..Config::default()
    }
}

fn border(needs_redraw: bool) -> BorderWindow {
    let (mut border, _) =
        BorderWindow::new(3, 9, true, 4 * POINT, Some(-1), Some(rect(10, 20, 100, 50)), 70).unwrap();
    border.needs_redraw = needs_redraw;
    border
}

fn update(border: &mut BorderWindow, facts: TargetFacts) -> Vec<BorderAction> {
    border.update(&ACTIVE, &INACTIVE, 4 * POINT, 10 * POINT, Some(-1), facts)
}

fn below(wid: u32, target_wid: u32, x: i64, y: i64) -> Vec<BorderAction> {
    vec![
        BorderAction::Move(wid, CGPoint { x: x * POINT, y: y * POINT }),
        BorderAction::SetLevel(wid, BORDER_LEVEL),
        BorderAction::Order(wid, -1, target_wid),
    ]
}

fn tracker_with(wids: &[u32]) -> WindowTracker {
    let mut tracker = WindowTracker::new(3, 1);
    for wid in wids {
        let r = tracker.create_border(
            *wid,
            &config(false),
            5,
            Some(document()),
            Some(rect(0, 0, 100, 50)),
            wid + 1000,
        );
        assert!(r.is_some());
    }
    tracker
}

#[test]
fn a_new_border_is_shaped_painted_and_shown() {
    let (border, actions) =
        BorderWindow::new(3, 9, true, 4 * POINT, Some(-1), Some(rect(10, 20, 100, 50)), 70).unwrap();
    assert_eq!(border.frame, rect(0, 0, 108, 58));
    assert_eq!(border.origin, CGPoint { x: 6 * POINT, y: 16 * POINT });
    assert_eq!((border.cid, border.wid, border.target_wid), (3, 70, 9));
    assert!(!border.focused && !border.needs_redraw);
    assert_eq!(
        actions,
        vec![
            BorderAction::SetResolution(70, true),
            BorderAction::SetOpacity(70, false),
            BorderAction::SetLevel(70, 25),
            BorderAction::Order(70, -1, 9),
            BorderAction::Paint(70, rect(0, 0, 216, 116)),
        ]
    );
}

#[test]
fn a_border_needs_a_target_and_a_window() {
    assert!(BorderWindow::new(3, 9, true, POINT, Some(1), None, 70).is_none());
    assert!(BorderWindow::new(3, 9, true, POINT, Some(1), Some(rect(0, 0, 9, 9)), 0).is_none());
}

#[test]
fn an_update_follows_the_target() {
    let mut b = border(false);
    let actions = update(&mut b, shown(rect(30, 20, 100, 50)));
    assert_eq!(actions, below(70, 9, 26, 16));
    assert_eq!(b.target_bounds, rect(30, 20, 100, 50));
    assert_eq!(b.calculate_frame(4 * POINT).1, CGPoint { x: 26 * POINT, y: 16 * POINT });
}

#[test]
fn an_update_reshapes_and_redraws() {
    let mut b = border(false);
    let mut expected = vec![
        BorderAction::Reshape(70, rect(0, 0, 208, 58)),
        BorderAction::Draw(70, rect(0, 0, 416, 116), INACTIVE, 4 * POINT, 10 * POINT),
    ];
    expected.extend(below(70, 9, 6, 16));
    assert_eq!(update(&mut b, shown(rect(10, 20, 200, 50))), expected);
    assert_eq!(b.frame, rect(0, 0, 208, 58));
    assert!(!b.needs_redraw);
    assert_eq!(update(&mut b, shown(rect(10, 20, 200, 50))), below(70, 9, 6, 16));
}

#[test]
fn a_focused_border_is_drawn_in_the_active_color() {
    let mut b = border(true);
    b.focused = true;
    b.hidpi = false;
    let actions = update(&mut b, shown(rect(10, 20, 100, 50)));
    assert_eq!(
        actions[0],
        BorderAction::Draw(70, rect(0, 0, 108, 58), ACTIVE, 4 * POINT, 10 * POINT)
    );
}

#[test]
fn a_border_of_a_hidden_target_is_hidden() {
    let mut b = border(true);
    let facts = TargetFacts { bounds: Some(rect(1, 1, 9, 9)), shown: false };
    assert_eq!(update(&mut b, facts), vec![BorderAction::OrderInTransaction(70, 0, 9)]);
    assert_eq!(b.target_bounds, rect(1, 1, 9, 9));
    assert!(b.needs_redraw);
}

#[test]
fn a_border_of_a_gone_target_stays() {
    let mut b = border(true);
    let before = b;
    assert!(update(&mut b, TargetFacts { bounds: None, shown: true }).is_empty());
    assert!(b.reposition_only(POINT, None).is_empty());
    assert_eq!(b, before);
}

#[test]
fn a_border_without_window_does_nothing() {
    let mut b = border(true);
    b.wid = 0;
    let before = b;
    assert!(update(&mut b, shown(rect(1, 1, 9, 9))).is_empty());
    assert!(b.reposition_only(POINT, Some(rect(1, 1, 9, 9))).is_empty());
    assert!(b.hide_border().is_empty());
    assert!(b.unhide(1).is_empty());
    assert!(b.close().is_empty());
    assert_eq!(b, before);
}

#[test]
fn moving_is_the_fast_path() {
    let mut b = border(true);
    assert_eq!(
        b.reposition_only(4 * POINT, Some(rect(50, 60, 70, 80))),
        vec![BorderAction::Move(70, CGPoint { x: 46 * POINT, y: 56 * POINT })]
    );
    assert_eq!(b.frame, rect(0, 0, 108, 58));
    assert!(b.needs_redraw);
}

#[test]
fn borders_are_hidden_shown_and_released() {
    let b = border(false);
    assert_eq!(b.hide_border(), vec![BorderAction::OrderInTransaction(70, 0, 9)]);
    assert_eq!(b.unhide(-1), vec![BorderAction::OrderInTransaction(70, -1, 9)]);
    assert_eq!(b.close(), vec![BorderAction::Release(70)]);
}

#[test]
fn the_spaces_of_all_displays_count() {
    let displays = vec![vec![Some(3), None, Some(1)], vec![], vec![None, Some(2)]];
    assert_eq!(space_ids(&displays), vec![3, 1, 2]);
    assert!(space_ids(&vec![]).is_empty());
}

#[test]
fn existing_windows_are_picked_on_some_space() {
    let tracker = WindowTracker::new(3, 1);
    let found = |wid, owner_pid, metadata| FoundWindow { wid, metadata, owner_pid };
    let windows = vec![
        found(5, 7, document()),
        found(6, 1, document()),
        found(7, 7, WindowMetadata { parent_wid: 2, ..document() }),
        found(4, 8, document()),
    ];
    assert_eq!(tracker.add_existing_windows(&vec![1], &windows), Some(vec![5, 4]));
    assert_eq!(tracker.add_existing_windows(&vec![], &windows), None);
}

#[test]
fn borders_are_created_once_and_destroyed() {
    let mut tracker = tracker_with(&[8, 5]);
    assert_eq!(tracker.update_notifications(), vec![5, 8]);
    assert!(!tracker.wants_border(5, 5, Some(document())));
    assert!(!tracker.wants_border(6, 1, Some(document())));
    assert!(!tracker.wants_border(6, 5, None));
    assert!(tracker.wants_border(6, 5, Some(document())));
    let again = tracker.create_border(
        5,
        &config(false),
        5,
        Some(document()),
        Some(rect(0, 0, 9, 9)),
        1,
    );
    assert!(again.is_none());
    let changes = tracker.destroy_border(8).unwrap();
    assert_eq!(changes.actions, vec![BorderAction::Release(1008)]);
    assert_eq!(changes.notify, vec![5]);
    assert!(tracker.destroy_border(8).is_none());
}

#[test]
fn a_created_border_is_told_about() {
    let mut tracker = tracker_with(&[8]);
    let changes = tracker
        .create_border(
            6,
            &config(false),
            5,
            Some(document()),
            Some(rect(0, 0, 100, 50)),
            600,
        )
        .unwrap();
    assert_eq!(changes.notify, vec![6, 8]);
    assert_eq!(changes.actions.len(), 5);
    assert_eq!(tracker.borders[&6].target_wid, 6);
    assert!(tracker
        .create_border(7, &config(false), 5, Some(document()), Some(rect(0, 0, 9, 9)), 0)
        .is_none());
    assert!(tracker
        .create_border(7, &config(false), 5, Some(document()), None, 700)
        .is_none());
}

#[test]
fn updating_all_redraws_every_border() {
    let mut tracker = tracker_with(&[5, 8]);
    let answers = vec![(8, shown(rect(10, 0, 100, 50)))];
    let actions = tracker.update_all(&config(false), &answers);
    let mut expected = vec![BorderAction::Draw(
        1008,
        rect(0, 0, 216, 116),
        INACTIVE,
        4 * POINT,
        10 * POINT,
    )];
    expected.extend(below(1008, 8, 6, -4));
    assert_eq!(actions, expected);
    assert!(tracker.borders[&5].needs_redraw);
    assert!(!tracker.borders[&8].needs_redraw);
}

#[test]
fn single_borders_are_updated_moved_hidden_and_shown() {
    let mut tracker = tracker_with(&[5]);
    let c = config(false);
    assert_eq!(
        tracker.update_window(5, &c, shown(rect(10, 10, 100, 50))),
        below(1005, 5, 6, 6)
    );
    assert_eq!(
        tracker.move_window(5, &c, Some(rect(20, 20, 100, 50))),
        vec![BorderAction::Move(1005, CGPoint { x: 16 * POINT, y: 16 * POINT })]
    );
    assert_eq!(tracker.hide_window(5), vec![BorderAction::OrderInTransaction(1005, 0, 5)]);
    assert_eq!(
        tracker.unhide_window(5, &c),
        vec![BorderAction::OrderInTransaction(1005, -1, 5)]
    );
    assert!(tracker.update_window(6, &c, shown(rect(0, 0, 9, 9))).is_empty());
    assert!(tracker.move_window(6, &c, None).is_empty());
    assert!(tracker.hide_window(6).is_empty());
    assert!(tracker.unhide_window(6, &c).is_empty());
}

#[test]
fn the_tracker_follows_the_focus() {
    let mut tracker = tracker_with(&[5, 8]);
    let c = config(false);
    let at = shown(rect(0, 0, 100, 50));
    let gone = TargetFacts { bounds: None, shown: false };
    assert_eq!(tracker.determine_focus(0, &c, gone), None);
    assert_eq!(tracker.determine_focus(5, &c, gone), Some(vec![]));
    assert_eq!(tracker.focused_wid, 5);
    let actions = tracker.show_focus(&c, at);
    assert_eq!(
        actions[0],
        BorderAction::Draw(1005, rect(0, 0, 216, 116), ACTIVE, 4 * POINT, 10 * POINT)
    );
    assert_eq!(tracker.determine_focus(5, &c, at), None);
    let actions = tracker.determine_focus(8, &c, at).unwrap();
    assert_eq!(
        actions[0],
        BorderAction::Draw(1005, rect(0, 0, 216, 116), INACTIVE, 4 * POINT, 10 * POINT)
    );
    tracker.show_focus(&c, at);
    assert!(!tracker.borders[&5].focused);
    assert!(tracker.borders[&8].focused);
}

#[test]
fn the_tracker_hides_the_unfocused_border_in_active_only_mode() {
    let mut tracker = tracker_with(&[5, 8]);
    let c = config(true);
    let at = shown(rect(0, 0, 100, 50));
    tracker.determine_focus(5, &c, at);
    tracker.show_focus(&c, at);
    assert_eq!(
        tracker.determine_focus(9, &c, at),
        Some(vec![BorderAction::OrderInTransaction(1005, 0, 5)])
    );
    assert!(tracker.show_focus(&c, at).is_empty());
}

#[test]
fn the_configured_order_counts_on_every_update() {
    for (order, number) in [(Some(1), Some(1)), (Some(-1), Some(-1)), (None, None)] {
        let mut b = border(true);
        let actions =
            b.update(&ACTIVE, &INACTIVE, 4 * POINT, 10 * POINT, order, shown(rect(10, 20, 100, 50)));
        let orders: Vec<&BorderAction> =
            actions.iter().filter(|a| matches!(a, BorderAction::Order(..))).collect();
        match number {
            Some(n) => assert_eq!(orders, vec![&BorderAction::Order(70, n, 9)]),
            None => assert!(orders.is_empty()),
        }
        assert!(!b.needs_redraw);
    }
}

#[test]
fn a_border_can_be_made_without_being_shown() {
    let (_, actions) =
        BorderWindow::new(3, 9, true, 4 * POINT, None, Some(rect(10, 20, 100, 50)), 70).unwrap();
    assert_eq!(actions.len(), 4);
    assert!(!actions.iter().any(|a| matches!(a, BorderAction::Order(..))));
}

#[test]
fn the_tracker_shows_the_focused_border_alone_in_active_only_mode() {
    let mut tracker = tracker_with(&[5, 8]);
    let c = config(true);
    let at = shown(rect(0, 0, 100, 50));
    tracker.determine_focus(5, &c, at);
    tracker.show_focus(&c, at);
    let shows = |actions: &[BorderAction]| -> Vec<u32> {
        actions
            .iter()
            .filter_map(|a| match a {
                BorderAction::Order(w, o, _) | BorderAction::OrderInTransaction(w, o, _)
                    if *o != 0 =>
                {
                    Some(*w)
                }
                _ => None,
            })
            .collect()
    };
    let made = tracker
        .create_border(6, &c, 5, Some(document()), Some(rect(0, 0, 100, 50)), 1006)
        .unwrap();
    assert!(shows(&made.actions).is_empty());
    assert!(shows(&tracker.update_window(8, &c, at)).is_empty());
    assert_eq!(shows(&tracker.update_window(5, &c, at)), vec![1005]);
    let answers = vec![(5, at), (6, at), (8, at)];
    assert_eq!(shows(&tracker.update_all(&c, &answers)), vec![1005]);
    assert!(tracker.unhide_window(8, &c).is_empty());
    assert_eq!(shows(&tracker.unhide_window(5, &c)), vec![1005]);
    assert_eq!(tracker.border_order(5, &c), Some(-1));
    assert_eq!(tracker.border_order(8, &c), None);
    assert_eq!(tracker.border_order(8, &config(false)), Some(-1));
}

#[test]
fn test_mode_borders_any_window() {
    let mut tracker = WindowTracker::new(3, 1);
    let c = config(true);
    let at = shown(rect(0, 0, 100, 50));
    let changes = tracker
        .test_wid(6, &c, Some(rect(0, 0, 100, 50)), 600, at)
        .unwrap();
    assert_eq!(changes.actions.len(), 8);
    assert!(changes.actions.contains(&BorderAction::Order(600, -1, 6)));
    assert_eq!(changes.notify, vec![6]);
    assert!(tracker.borders[&6].focused);
    assert!(tracker.test_wid(7, &c, None, 700, at).is_none());
    assert!(tracker.test_wid(7, &c, Some(rect(0, 0, 9, 9)), 0, at).is_none());
}

#[test]
fn test_mode_gives_the_replaced_border_back() {
    let mut tracker = WindowTracker::new(3, 1);
    let c = config(false);
    let at = shown(rect(0, 0, 100, 50));
    tracker.test_wid(6, &c, at.bounds, 600, at).unwrap();
    let changes = tracker.test_wid(6, &c, at.bounds, 601, at).unwrap();
    assert_eq!(changes.actions.last(), Some(&BorderAction::Release(600)));
    assert_eq!(changes.actions.len(), 9);
    assert_eq!(tracker.borders[&6].wid, 601);
}

#[test]
fn the_front_window_is_the_first_suitable_one() {
    let child = WindowMetadata { parent_wid: 2, ..document() };
    let windows = vec![(4, child), (5, document()), (6, document())];
    assert_eq!(get_front_window(1, &windows), 5);
    assert_eq!(get_front_window(0, &windows), 0);
    assert_eq!(get_front_window(1, &vec![(4, child)]), 0);
    assert!(WindowTracker::window_suitable(document()));
    assert!(!WindowTracker::window_suitable(child));
    assert!(WindowTracker::new(3, 1).is_own_window(1));
    assert!(!WindowTracker::new(3, 1).is_own_window(2));
}
