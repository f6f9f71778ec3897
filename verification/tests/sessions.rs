use ers::borders::{Command, WindowFacts};
use ers::color::Color;
use ers::event::Event;
use ers::geometry::{CGRect, POINT};
use ers::options::Options;
use ers::plan::{NewOverlay, Query, Reply, SETTLE_TIME};
use ers::session::Session;
use ers::surface::is_same_window_surface;
use ers::timer::{MainState, LONGEST_WAIT, QUIET_TIME};
use ers::window::{WindowEntry, WindowMetadata, WINDOW_ATTRIBUTE_REAL, WINDOW_TAG_DOCUMENT};
use std::collections::BTreeMap;

const OWN: i32 = 1;
const ACTIVE: Color = Color { r: 1, g: 2, b: 3, a: 255 };
const INACTIVE: Color = Color { r: 9, g: 8, b: 7, a: 128 };

#[derive(Clone, Copy)]
struct Window {
    shown: bool,
    pid: i32,
    metadata: Option<WindowMetadata>,
    bounds: Option<CGRect>,
}

#[derive(Clone, Copy, Debug, PartialEq)]
struct Drawn {
    number: u32,
    visible: bool,
    bounds: CGRect,
    color: Color,
}

/// A window server with some windows, and the overlays that it was told to show.
struct Server {
    windows: BTreeMap<u32, Window>,
    stacking: Vec<u32>,
    front_pid: i32,
    next_number: u32,
    can_make: bool,
    screen: BTreeMap<u32, Drawn>,
    subscriptions: Vec<Vec<u32>>,
    made: Vec<NewOverlay>,
    steps: usize,
}

fn rect(x: i64, y: i64, w: i64, h: i64) -> CGRect {
    CGRect::new(x * POINT, y * POINT, w * POINT, h * POINT)
}

fn document() -> WindowMetadata {
    WindowMetadata {
        parent_wid: 0,
        tags: WINDOW_TAG_DOCUMENT,
        attributes: WINDOW_ATTRIBUTE_REAL,
    }
}

impl Server {
    fn new() -> Server {
        Server {
            windows: BTreeMap::new(),
            stacking: Vec::new(),
            front_pid: 0,
            next_number: 1000,
            can_make: true,
            screen: BTreeMap::new(),
            subscriptions: Vec::new(),
            made: Vec::new(),
            steps: 0,
        }
    }

    fn open(&mut self, wid: u32, pid: i32, bounds: CGRect) {
        self.windows.insert(
            wid,
            Window { shown: true, pid, metadata: Some(document()), bounds: Some(bounds) },
        );
        self.stacking.push(wid);
    }

    fn close(&mut self, wid: u32) {
        self.windows.remove(&wid);
        self.stacking.retain(|w| *w != wid);
    }

    fn place(&mut self, wid: u32, bounds: CGRect) {
        self.windows.get_mut(&wid).unwrap().bounds = Some(bounds);
    }

    fn facts(&self, wid: u32) -> WindowFacts {
        match self.windows.get(&wid) {
            Some(w) => WindowFacts {
                shown: w.shown,
                owner_pid: w.pid,
                metadata: w.metadata,
                bounds: w.bounds,
            },
            None => WindowFacts { shown: false, owner_pid: 0, metadata: None, bounds: None },
        }
    }

    fn entries(&self) -> Vec<WindowEntry> {
        self.stacking
            .iter()
            .filter(|w| self.windows[*w].shown)
            .map(|w| WindowEntry {
                wid: Some(*w),
                pid: Some(self.windows[w].pid),
                layer: Some(0),
                metadata: self.windows[w].metadata,
                bounds: self.windows[w].bounds,
            })
            .collect()
    }

    fn obey(&mut self, command: &Command) {
        match command {
            Command::OrderAbove(w) => self.screen.get_mut(w).unwrap().visible = true,
            Command::OrderOut(w) => self.screen.get_mut(w).unwrap().visible = false,
            Command::SetBounds(w, b) => self.screen.get_mut(w).unwrap().bounds = *b,
            Command::SetColor(w, c) => self.screen.get_mut(w).unwrap().color = *c,
            Command::Close(w) => {
                self.screen.remove(w).unwrap();
            }
            Command::Subscribe(ws) => self.subscriptions.push(ws.clone()),
        }
    }

    fn answer(&mut self, ask: Query) -> Option<Reply> {
        match ask {
            Query::Idle => None,
            Query::Continue => Some(Reply::Nothing),
            Query::Window(w) => Some(Reply::Window(self.facts(w))),
            Query::Bounds(ws) => Some(Reply::Bounds(
                ws.iter()
                    .filter_map(|w| self.facts(*w).bounds.map(|b| (*w, b)))
                    .collect(),
            )),
            Query::Windows => Some(Reply::Windows(self.entries())),
            Query::Front => Some(Reply::Front(self.front_pid, self.entries())),
            Query::Create(n) => {
                if !self.can_make {
                    return Some(Reply::Created(None));
                }
                self.made.push(n);
                self.next_number += 1;
                self.screen.insert(
                    n.target_wid,
                    Drawn {
                        number: self.next_number,
                        visible: true,
                        bounds: n.bounds,
                        color: n.color,
                    },
                );
                Some(Reply::Created(Some(self.next_number)))
            }
        }
    }

    fn settle(&mut self, session: &mut Session, now: u64) {
        let mut reply = Reply::Nothing;
        loop {
            self.steps += 1;
            assert!(self.steps < 10_000);
            let outcome = session.step(reply, now);
            for command in &outcome.commands {
                self.obey(command);
            }
            match self.answer(outcome.ask) {
                Some(next) => reply = next,
                None => return,
            }
        }
    }

    fn visible(&self) -> Vec<u32> {
        self.screen.iter().filter(|(_, d)| d.visible).map(|(w, _)| *w).collect()
    }

    fn colors_right(&self, focused: u32) -> bool {
        self.screen.iter().all(|(w, d)| {
            d.color == if *w == focused { ACTIVE } else { INACTIVE }
        })
    }

    fn bordered(&self) -> Vec<u32> {
        self.screen.keys().copied().collect()
    }
}

fn options(active_only: bool, target: Option<u32>) -> Options {
    Options {
        border_width: 4 * POINT,
        radius: 10 * POINT,
        active_color: ACTIVE,
        inactive_color: INACTIVE,
        active_only,
        target,
    }
}

fn three_windows() -> Server {
    let mut server = Server::new();
    server.open(30, 5, rect(0, 0, 400, 300));
    server.open(20, 6, rect(500, 0, 400, 300));
    server.open(10, 5, rect(0, 400, 400, 300));
    server.open(90, OWN, rect(500, 400, 400, 300));
    server.front_pid = 5;
    server
}

fn started(server: &mut Server, active_only: bool) -> Session {
    let mut session = Session::open(OWN, &options(active_only, None));
    server.settle(&mut session, 0);
    session
}

#[test]
fn a_session_borders_all_windows_of_others() {
    let mut server = three_windows();
    let session = started(&mut server, false);
    assert_eq!(server.bordered(), vec![10, 20, 30]);
    assert_eq!(session.borders.focused_wid, 30);
    assert!(server.colors_right(30));
    assert_eq!(server.visible(), vec![10, 20, 30]);
    assert_eq!(server.subscriptions, vec![vec![10, 20, 30]]);
    assert_eq!(server.screen[&20].bounds, rect(500, 0, 400, 300));
    assert_eq!(server.made[0].border_width, 4 * POINT);
    assert_eq!(server.made[0].radius, 10 * POINT);
}

#[test]
fn a_session_can_border_one_window() {
    let mut server = three_windows();
    let mut session = Session::open(OWN, &options(false, Some(20)));
    server.front_pid = 0;
    server.settle(&mut session, 0);
    assert_eq!(server.bordered(), vec![20]);
}

#[test]
fn active_only_shows_the_focused_border_alone() {
    let mut server = three_windows();
    let session = started(&mut server, true);
    assert_eq!(server.visible(), vec![session.borders.focused_wid]);
}

#[test]
fn focus_moves_the_color_and_the_visible_border() {
    let mut server = three_windows();
    let mut session = started(&mut server, true);
    server.front_pid = 6;
    session.poll(false);
    server.settle(&mut session, 1);
    assert_eq!(session.borders.focused_wid, 20);
    assert_eq!(server.visible(), vec![20]);
    assert!(server.colors_right(20));
}

#[test]
fn no_front_process_keeps_the_focus() {
    let mut server = three_windows();
    let mut session = started(&mut server, false);
    for pid in [0, OWN] {
        server.front_pid = pid;
        session.poll(false);
        server.settle(&mut session, 1);
        assert_eq!(session.borders.focused_wid, 30);
    }
}

#[test]
fn a_focused_window_without_border_is_tried_again() {
    let mut server = three_windows();
    server.windows.get_mut(&30).unwrap().bounds = Some(rect(0, 0, 2, 2));
    let mut session = started(&mut server, false);
    assert_eq!(session.borders.focused_wid, 30);
    assert_eq!(server.bordered(), vec![10, 20]);
    server.place(30, rect(0, 0, 400, 300));
    session.poll(false);
    server.settle(&mut session, 1);
    assert_eq!(server.bordered(), vec![10, 20, 30]);
    assert!(server.colors_right(30));
    assert_eq!(server.subscriptions.last(), Some(&vec![30]));
}

#[test]
fn focus_on_an_unknown_window_borders_it() {
    let mut server = three_windows();
    let mut session = started(&mut server, false);
    server.open(40, 7, rect(1000, 0, 300, 300));
    server.front_pid = 7;
    session.poll(false);
    server.settle(&mut session, 1);
    assert_eq!(server.bordered(), vec![10, 20, 30, 40]);
    assert!(server.colors_right(40));
}

#[test]
fn small_hidden_own_and_unsuitable_windows_get_no_border() {
    let mut server = three_windows();
    server.windows.get_mut(&10).unwrap().metadata = None;
    server.place(20, rect(500, 0, 3, 300));
    let mut session = Session::open(OWN, &options(false, Some(90)));
    server.settle(&mut session, 0);
    assert_eq!(server.bordered(), vec![30]);
    server.windows.get_mut(&20).unwrap().shown = false;
    server.place(20, rect(500, 0, 300, 300));
    session.process_event_batch(&vec![Event::Unhide(20)]);
    server.settle(&mut session, 1);
    assert_eq!(server.bordered(), vec![30]);
}

#[test]
fn an_overlay_that_cannot_be_made_is_not_recorded() {
    let mut server = three_windows();
    server.can_make = false;
    let session = started(&mut server, false);
    assert!(server.screen.is_empty());
    assert!(session.borders.overlays.is_empty());
}

#[test]
fn moved_windows_take_their_overlays_along() {
    let mut server = three_windows();
    let mut session = started(&mut server, false);
    server.place(20, rect(600, 50, 400, 350));
    session.process_event_batch(&vec![Event::Move(20)]);
    server.settle(&mut session, 1);
    assert_eq!(server.screen[&20].bounds, rect(600, 50, 400, 350));
    let overlay = session.borders.overlays.get(&20).unwrap();
    assert_eq!(overlay.bounds(), rect(600, 50, 400, 350));
    assert_eq!(overlay.wid(), server.screen[&20].number);
}

#[test]
fn resized_windows_take_their_overlays_along() {
    let mut server = three_windows();
    let mut session = started(&mut server, false);
    server.place(10, rect(0, 400, 100, 100));
    session.process_event_batch(&vec![Event::Resize(10), Event::Move(10)]);
    server.settle(&mut session, 1);
    assert_eq!(server.screen[&10].bounds, rect(0, 400, 100, 100));
}

#[test]
fn closed_and_destroyed_windows_lose_their_borders() {
    let mut server = three_windows();
    let mut session = started(&mut server, false);
    server.close(10);
    server.close(20);
    session.process_event_batch(&vec![Event::Close(10), Event::Destroy(20)]);
    server.settle(&mut session, 1);
    assert_eq!(server.bordered(), vec![30]);
    assert_eq!(server.subscriptions.last(), Some(&vec![30]));
}

#[test]
fn a_missed_close_is_found_by_reconciling() {
    let mut server = three_windows();
    let mut session = started(&mut server, false);
    server.close(20);
    session.poll(false);
    server.settle(&mut session, 1);
    assert_eq!(server.bordered(), vec![10, 20, 30]);
    session.poll(true);
    server.settle(&mut session, 2);
    assert_eq!(server.bordered(), vec![10, 30]);
}

#[test]
fn windows_that_shrink_or_become_unsuitable_lose_their_borders() {
    let mut server = three_windows();
    let mut session = started(&mut server, false);
    server.place(20, rect(500, 0, 400, 3));
    server.windows.get_mut(&10).unwrap().metadata =
        Some(WindowMetadata { parent_wid: 30, ..document() });
    session.poll(true);
    server.settle(&mut session, 1);
    assert_eq!(server.bordered(), vec![30]);
}

#[test]
fn new_windows_get_a_border_once_they_have_settled() {
    let mut server = three_windows();
    let mut session = started(&mut server, false);
    server.open(50, 8, rect(1000, 0, 300, 300));
    session.process_event_batch(&vec![Event::Create(50)]);
    server.settle(&mut session, 1000);
    assert_eq!(server.bordered(), vec![10, 20, 30]);
    assert_eq!(session.pending.get(&50), Some(&1000));
    session.process_event_batch(&vec![Event::Move(10)]);
    server.settle(&mut session, 999 + SETTLE_TIME);
    assert_eq!(server.bordered(), vec![10, 20, 30]);
    session.process_event_batch(&vec![Event::Create(50)]);
    server.settle(&mut session, 1000 + SETTLE_TIME);
    assert_eq!(server.bordered(), vec![10, 20, 30, 50]);
    assert!(session.pending.is_empty());
}

#[test]
fn a_new_window_that_goes_at_once_is_forgotten() {
    let mut server = three_windows();
    let mut session = started(&mut server, false);
    session.process_event_batch(&vec![Event::Create(50), Event::Destroy(50)]);
    server.settle(&mut session, 5);
    assert!(session.pending.is_empty());
}

#[test]
fn of_new_windows_on_one_surface_the_largest_gets_the_border() {
    let mut server = three_windows();
    let mut session = started(&mut server, false);
    server.open(51, 8, rect(1014, 5, 1160, 140));
    server.open(52, 8, rect(1000, 0, 1200, 900));
    server.open(53, 8, rect(1000, 0, 1200, 900));
    session.process_event_batch(&vec![
        Event::Create(53),
        Event::Create(52),
        Event::Create(51),
    ]);
    server.settle(&mut session, 0);
    session.process_event_batch(&vec![]);
    server.settle(&mut session, SETTLE_TIME);
    assert_eq!(server.bordered(), vec![10, 20, 30, 52]);
}

#[test]
fn a_larger_window_takes_the_border_of_its_strip() {
    let mut server = three_windows();
    let mut session = started(&mut server, false);
    server.open(60, 8, rect(1014, 5, 1160, 140));
    session.process_event_batch(&vec![Event::SpaceChange]);
    server.settle(&mut session, 1);
    assert_eq!(server.bordered(), vec![10, 20, 30, 60]);
    server.open(61, 8, rect(1000, 0, 1200, 900));
    session.process_event_batch(&vec![Event::SpaceChange]);
    server.settle(&mut session, 2);
    assert_eq!(server.bordered(), vec![10, 20, 30, 61]);
}

#[test]
fn no_surface_ever_has_two_borders() {
    let mut server = three_windows();
    let mut session = started(&mut server, false);
    let steps = [
        (60, rect(1000, 0, 500, 140), vec![10, 20, 30, 60]),
        (61, rect(1600, 0, 500, 140), vec![10, 20, 30, 60, 61]),
        // As large as a window with a border, and no larger.
        (62, rect(1000, 0, 500, 140), vec![10, 20, 30, 60, 61]),
        // Around two windows with a border.
        (63, rect(990, 0, 1200, 900), vec![10, 20, 30, 63]),
        (64, rect(1100, 100, 900, 700), vec![10, 20, 30, 63]),
    ];
    for (wid, bounds, bordered) in steps {
        server.open(wid, 8, bounds);
        session.process_event_batch(&vec![Event::SpaceChange]);
        server.settle(&mut session, 1);
        assert_eq!(server.bordered(), bordered);
        for x in &bordered {
            for y in &bordered {
                let one = is_same_window_surface(server.screen[x].bounds, server.screen[y].bounds);
                assert_eq!(one, x == y);
            }
        }
    }
}

#[test]
fn front_and_space_changes_discover_windows() {
    for event in [Event::FrontChange, Event::SpaceChange] {
        let mut server = three_windows();
        let mut session = started(&mut server, true);
        server.open(70, 8, rect(1000, 0, 300, 300));
        session.process_event_batch(&vec![event]);
        server.settle(&mut session, 1);
        assert_eq!(server.bordered(), vec![10, 20, 30, 70]);
        assert_eq!(server.visible(), vec![30]);
        assert_eq!(server.subscriptions.last(), Some(&vec![10, 20, 30, 70]));
    }
}

#[test]
fn hiding_and_unhiding_follow_the_window() {
    let mut server = three_windows();
    let mut session = started(&mut server, false);
    session.process_event_batch(&vec![Event::Hide(20)]);
    server.settle(&mut session, 1);
    assert_eq!(server.visible(), vec![10, 30]);
    session.process_event_batch(&vec![Event::Unhide(20)]);
    server.settle(&mut session, 2);
    assert_eq!(server.visible(), vec![10, 20, 30]);
}

#[test]
fn unhiding_shows_nothing_unfocused_in_active_only_mode() {
    let mut server = three_windows();
    let mut session = started(&mut server, true);
    session.process_event_batch(&vec![Event::Unhide(20), Event::Unhide(30)]);
    server.settle(&mut session, 1);
    assert_eq!(server.visible(), vec![30]);
}

#[test]
fn unhiding_an_unknown_window_borders_and_subscribes_it() {
    let mut server = three_windows();
    let mut session = started(&mut server, false);
    server.open(80, 8, rect(1000, 0, 300, 300));
    session.process_event_batch(&vec![Event::Unhide(80)]);
    server.settle(&mut session, 1);
    assert_eq!(server.bordered(), vec![10, 20, 30, 80]);
    assert!(server.subscriptions.contains(&vec![80]));
}

#[test]
fn events_of_the_overlays_themselves_are_ignored() {
    let mut server = three_windows();
    let mut session = started(&mut server, false);
    let number = server.screen[&20].number;
    session.process_event_batch(&vec![
        Event::Move(number),
        Event::Resize(number),
        Event::Close(number),
        Event::Destroy(number),
        Event::Create(number),
        Event::Unhide(number),
    ]);
    server.settle(&mut session, 1);
    assert!(session.pending.is_empty());
    assert_eq!(server.bordered(), vec![10, 20, 30]);
    assert_eq!(server.subscriptions.len(), 1);
}

#[test]
fn a_batch_leaves_the_focused_border_alone_in_active_only_mode() {
    let mut server = three_windows();
    let mut session = started(&mut server, true);
    server.place(10, rect(100, 400, 400, 300));
    session.process_event_batch(&vec![Event::Move(10)]);
    server.settle(&mut session, 1);
    assert_eq!(server.visible(), vec![30]);
    assert_eq!(server.screen[&10].bounds, rect(100, 400, 400, 300));
}

#[test]
fn a_reconciled_hidden_overlay_follows_and_stays_hidden() {
    let mut server = three_windows();
    let mut session = started(&mut server, true);
    server.place(10, rect(100, 400, 400, 300));
    session.poll(true);
    server.settle(&mut session, 1);
    assert_eq!(server.visible(), vec![30]);
    assert_eq!(server.screen[&10].bounds, rect(100, 400, 400, 300));
    session.process_event_batch(&vec![]);
    server.settle(&mut session, 2);
    assert_eq!(server.visible(), vec![30]);
}

#[test]
fn the_focused_overlay_is_shown_where_it_moves() {
    let mut server = three_windows();
    let mut session = started(&mut server, true);
    server.place(30, rect(50, 0, 400, 300));
    session.poll(true);
    server.settle(&mut session, 1);
    assert_eq!(server.visible(), vec![30]);
    assert_eq!(server.screen[&30].bounds, rect(50, 0, 400, 300));
    assert!(session.borders.may_be_shown(30));
    assert!(!session.borders.may_be_shown(10));
}

#[test]
fn reconciling_twice_does_nothing_more() {
    let mut server = three_windows();
    let mut session = started(&mut server, false);
    let facts = WindowFacts {
        bounds: Some(rect(7, 7, 70, 70)),
        ..server.facts(20)
    };
    let (removed, first) = session.borders.sync_overlay(20, &facts);
    assert!(!removed);
    assert_eq!(first.len(), 2);
    let (removed, second) = session.borders.sync_overlay(20, &facts);
    assert!(!removed);
    assert!(second.is_empty());
    assert!(session.borders.recreate(20, &facts).is_empty());
}

#[test]
fn stopping_closes_every_overlay() {
    let mut server = three_windows();
    let mut session = started(&mut server, false);
    for command in &session.borders.remove_all() {
        server.obey(command);
    }
    assert!(server.screen.is_empty());
    assert!(session.borders.overlays.is_empty());
}

#[test]
fn a_wrong_reply_counts_as_none() {
    let mut session = Session::open(OWN, &options(false, Some(20)));
    assert!(matches!(session.step(Reply::Nothing, 0).ask, Query::Window(20)));
    let outcome = session.step(Reply::Created(Some(3)), 0);
    assert!(outcome.commands.is_empty());
    assert!(matches!(outcome.ask, Query::Continue));
    assert!(session.borders.overlays.is_empty());
}

#[test]
fn a_session_at_rest_stays_at_rest() {
    let mut server = three_windows();
    let mut session = started(&mut server, false);
    let outcome = session.step(Reply::Nothing, 9);
    assert!(outcome.commands.is_empty());
    assert!(matches!(outcome.ask, Query::Idle));
}

#[test]
fn a_batch_is_flushed_after_quiet() {
    let mut server = three_windows();
    let mut state = MainState::new(started(&mut server, false));
    state.timer_callback(&vec![Event::Hide(20)], 100, 100);
    assert_eq!(state.batch_events, vec![Event::Hide(20)]);
    assert_eq!(state.batch_first_seen, Some(100));
    server.settle(&mut state.session, 100);
    assert!(server.screen[&20].visible);
    state.timer_callback(&vec![], 0, 99 + QUIET_TIME);
    server.settle(&mut state.session, 101);
    assert_eq!(state.batch_events.len(), 1);
    state.timer_callback(&vec![], 0, 100 + QUIET_TIME);
    server.settle(&mut state.session, 102);
    assert!(state.batch_events.is_empty());
    assert_eq!(state.batch_first_seen, None);
    assert!(!server.screen[&20].visible);
    assert_eq!(state.ticks, 3);
}

#[test]
fn a_busy_batch_is_flushed_at_the_latest_after_the_longest_wait() {
    let mut server = three_windows();
    let mut state = MainState::new(started(&mut server, false));
    state.timer_callback(&vec![Event::Move(20)], 0, 0);
    state.timer_callback(&vec![Event::Move(20)], 50, LONGEST_WAIT - 1);
    assert_eq!(state.batch_events.len(), 2);
    assert_eq!(state.batch_first_seen, Some(0));
    state.timer_callback(&vec![Event::Hide(10)], 60, LONGEST_WAIT);
    assert!(state.batch_events.is_empty());
    server.settle(&mut state.session, LONGEST_WAIT);
    assert!(!server.screen[&10].visible);
}

#[test]
fn every_sixtieth_tick_reconciles() {
    let mut server = three_windows();
    let mut state = MainState::new(started(&mut server, false));
    server.close(20);
    for _ in 0..60 {
        state.timer_callback(&vec![], 0, 0);
        server.settle(&mut state.session, 0);
    }
    assert_eq!(server.bordered(), vec![10, 20, 30]);
    state.timer_callback(&vec![], 0, 0);
    server.settle(&mut state.session, 0);
    assert_eq!(server.bordered(), vec![10, 30]);
}

#[test]
fn the_tick_count_wraps() {
    let mut server = three_windows();
    let mut state = MainState::new(started(&mut server, false));
    state.ticks = usize::MAX;
    state.timer_callback(&vec![], 0, 0);
    assert_eq!(state.ticks, 0);
}
