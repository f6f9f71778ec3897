use ers::event::{
    front_handler, is_own_window, register, space_handler, spawn_handler, spawn_payload,
    window_handler, window_payload, Event, Handler, EVENT_FRONT_CHANGE, EVENT_SPACE_CHANGE,
    EVENT_WINDOW_CLOSE, EVENT_WINDOW_CREATE, EVENT_WINDOW_DESTROY, EVENT_WINDOW_HIDE,
    EVENT_WINDOW_MOVE, EVENT_WINDOW_REORDER, EVENT_WINDOW_RESIZE, EVENT_WINDOW_UNHIDE,
};

#[test]
fn window_notifications_have_their_meaning() {
    let of = |event| window_handler(event, 7, 5, 1);
    assert_eq!(of(EVENT_WINDOW_MOVE), vec![Event::Move(7)]);
    assert_eq!(of(EVENT_WINDOW_RESIZE), vec![Event::Resize(7)]);
    assert_eq!(of(EVENT_WINDOW_CLOSE), vec![Event::Close(7)]);
    assert_eq!(of(EVENT_WINDOW_HIDE), vec![Event::Hide(7)]);
    assert_eq!(of(EVENT_WINDOW_UNHIDE), vec![Event::Unhide(7)]);
    assert_eq!(of(EVENT_WINDOW_REORDER), vec![Event::Move(7), Event::FrontChange]);
    assert_eq!(of(EVENT_WINDOW_CREATE), vec![]);
    assert_eq!(of(1), vec![]);
}

#[test]
fn spawn_notifications_have_their_meaning() {
    assert_eq!(spawn_handler(EVENT_WINDOW_CREATE, 7, 5, 1), vec![Event::Create(7)]);
    assert_eq!(spawn_handler(EVENT_WINDOW_DESTROY, 7, 5, 1), vec![Event::Destroy(7)]);
    assert_eq!(spawn_handler(EVENT_WINDOW_MOVE, 7, 5, 1), vec![]);
}

#[test]
fn own_windows_and_no_window_are_dropped() {
    assert_eq!(window_handler(EVENT_WINDOW_MOVE, 7, 1, 1), vec![]);
    assert_eq!(window_handler(EVENT_WINDOW_MOVE, 0, 5, 1), vec![]);
    assert_eq!(spawn_handler(EVENT_WINDOW_CREATE, 7, 1, 1), vec![]);
    assert_eq!(spawn_handler(EVENT_WINDOW_CREATE, 0, 5, 1), vec![]);
    assert!(is_own_window(3, 3));
    assert!(!is_own_window(3, 4));
}

#[test]
fn the_other_handlers_need_no_window() {
    assert_eq!(space_handler(), Event::SpaceChange);
    assert_eq!(front_handler(), Event::FrontChange);
}

#[test]
fn notifications_carry_window_ids() {
    let data = [0x01, 0x02, 0x03, 0x84, 9, 9, 9, 9, 0xff, 0xfe, 0x00, 0x01];
    assert_eq!(window_payload(&data), 0x8403_0201);
    assert_eq!(spawn_payload(&data), 0x0100_feff);
}

#[test]
fn ten_notifications_are_registered() {
    assert_eq!(
        register(),
        vec![
            (804, Handler::Window),
            (806, Handler::Window),
            (807, Handler::Window),
            (808, Handler::Window),
            (816, Handler::Window),
            (815, Handler::Window),
            (1325, Handler::Spawn),
            (1326, Handler::Spawn),
            (EVENT_SPACE_CHANGE, Handler::Space),
            (EVENT_FRONT_CHANGE, Handler::Front),
        ]
    );
    assert_eq!((EVENT_SPACE_CHANGE, EVENT_FRONT_CHANGE), (1401, 1508));
}
